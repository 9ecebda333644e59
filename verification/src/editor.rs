//! The editing session: the document, the cursor on it and the mode, behind
//! one entry point that takes one command at a time.

use vstd::prelude::*;
use crate::cursor::{lemma_step_wf, Cursor, CursorView, MoveError};
use crate::edit::{
    edited, edited_node, lemma_delete_backward_wf, lemma_delete_forward_wf, lemma_insert_wf,
    process_insert, InsertChar,
};
use crate::level::ZipperType;
use crate::mode::{lemma_descend_wf, setup_char_zipper, AppState, Command};
use crate::navigate::{lemma_char_move_wf, move_char};
use crate::segment::document_runs_of;
use crate::tree::{DocumentTree, TreeView};

verus! {

/// The mathematical model of an [`Editor`].
pub struct EditorView {
    pub tree: TreeView,
    pub cursor: CursorView,
    pub mode: AppState,
}

impl EditorView {
    /// The session is sound: the tree is, and the cursor agrees with it.
    pub open spec fn wf(self) -> bool {
        self.tree.wf() && self.cursor.wf(self.tree)
    }

    /// Whether the mode takes the command: structural movements belong to
    /// travel mode, movements by characters and lines to normal and insert
    /// mode, typing and deleting to insert mode; a switch of mode and a
    /// request to save are taken in every mode.
    pub open spec fn permits(self, command: Command) -> bool {
        match command {
            Command::Move(_) => self.mode == AppState::Travel,
            Command::Char(_) => self.mode != AppState::Travel,
            Command::Insert(_) => self.mode == AppState::Insert,
            Command::Mode(_) => true,
            Command::Save(_) => true,
        }
    }

    /// The session after a command. A command that the mode does not take,
    /// or that hits a structural boundary, leaves the session as it is.
    /// Entering normal or insert mode takes the cursor down to a character.
    pub open spec fn after(self, command: Command) -> EditorView {
        if !self.permits(command) {
            self
        } else {
            match command {
                Command::Move(inst) => EditorView {
                    cursor: self.cursor.step_or_stay(self.tree, inst),
                    ..self
                },
                Command::Char(movement) => match self.cursor.char_move(self.tree, movement) {
                    Ok(moved) => EditorView { cursor: moved, ..self },
                    Err(_) => self,
                },
                Command::Insert(input) => if self.cursor.level() == ZipperType::Character {
                    EditorView {
                        tree: edited(self.tree, self.cursor, input).0,
                        cursor: edited(self.tree, self.cursor, input).1,
                        mode: self.mode,
                    }
                } else {
                    self
                },
                Command::Mode(mode) => EditorView {
                    tree: self.tree,
                    cursor: if mode == AppState::Travel {
                        self.cursor
                    } else {
                        self.cursor.descend(self.tree)
                    },
                    mode,
                },
                Command::Save(_) => self,
            }
        }
    }
}

/// The reconstruction invariant survives every command: a sound session is
/// sound after it, whether the command was carried out, dropped or refused.
/// Typing needs room for one more node in the arena.
pub proof fn lemma_after_wf(editor: EditorView, command: Command)
    requires
        editor.wf(),
        command is Insert ==> editor.tree.nodes.len() < usize::MAX,
    ensures
        editor.after(command).wf(),
{
    if editor.permits(command) {
        match command {
            Command::Move(inst) => {
                lemma_step_wf(editor.cursor, editor.tree, inst);
            },
            Command::Char(movement) => {
                if editor.cursor.char_move(editor.tree, movement) is Ok {
                    lemma_char_move_wf(editor.cursor, editor.tree, movement);
                }
            },
            Command::Insert(input) => {
                if editor.cursor.level() == ZipperType::Character {
                    match input {
                        InsertChar::Str(text) => {
                            lemma_insert_wf(editor.tree, editor.cursor, text@);
                        },
                        InsertChar::Delete => {
                            lemma_delete_backward_wf(editor.tree, editor.cursor);
                        },
                        InsertChar::ForwardDelete => {
                            lemma_delete_forward_wf(editor.tree, editor.cursor);
                        },
                    }
                }
            },
            Command::Mode(mode) => {
                lemma_descend_wf(editor.cursor, editor.tree);
            },
            Command::Save(_) => {},
        }
    }
}

/// What became of a command.
#[derive(Clone, PartialEq, Eq, Debug)]
pub enum Outcome {
    /// The cursor moved.
    Moved,
    /// Text was typed or deleted; the node that joined or left its span.
    Edited(usize),
    /// The mode was switched.
    Switched,
    /// The text to write to the file.
    Saved(String),
    /// The command hit a structural boundary and changed nothing.
    Dropped(MoveError),
    /// The mode does not take the command; nothing changed.
    Refused,
}

/// An editing session.
pub struct Editor {
    tree: DocumentTree,
    cursor: Cursor,
    mode: AppState,
}

impl View for Editor {
    type V = EditorView;

    closed spec fn view(&self) -> EditorView {
        EditorView { tree: self.tree@, cursor: self.cursor@, mode: self.mode }
    }
}

impl Editor {
    /// The session is sound, see [`EditorView::wf`].
    pub open spec fn wf(&self) -> bool {
        self@.wf()
    }

    /// Opens a session on `text`: the document is loaded, the cursor rests
    /// on the window, and the mode is normal.
    pub fn new(text: &str) -> (editor: Editor)
        ensures
            editor.wf(),
            editor@.tree.document_runs(editor@.tree.document()) == document_runs_of(text@),
            editor@.cursor == CursorView::rooted_at(editor@.tree.root),
            editor@.mode == AppState::Normal,
    {
        let tree = DocumentTree::from_text(text);
        let cursor = Cursor::new(tree.root());
        Editor { tree, cursor, mode: AppState::Normal }
    }

    /// The document.
    pub fn tree(&self) -> (tree: &DocumentTree)
        ensures
            tree@ == self@.tree,
    {
        &self.tree
    }

    /// The cursor.
    pub fn cursor(&self) -> (cursor: &Cursor)
        ensures
            cursor@ == self@.cursor,
    {
        &self.cursor
    }

    /// The mode.
    pub fn mode(&self) -> (mode: AppState)
        ensures
            mode == self@.mode,
    {
        self.mode
    }

    /// The focused node: the one node of the tree to highlight.
    pub fn focus(&self) -> (node: usize)
        ensures
            node == self@.cursor.focus(),
    {
        self.cursor.focus()
    }

    /// Carries out one command and says what became of it. A command that
    /// the mode does not take is refused, one that hits a structural
    /// boundary is dropped; both leave the session exactly as it was.
    pub fn apply(&mut self, command: Command) -> (outcome: Outcome)
        requires
            old(self).wf(),
        ensures
            final(self).wf(),
            final(self)@ == old(self)@.after(command),
            old(self)@.reports(command, outcome),
    {
        match command {
            Command::Move(inst) => {
                if self.mode != AppState::Travel {
                    return Outcome::Refused;
                }
                match self.cursor.apply(&self.tree, inst) {
                    Ok(()) => Outcome::Moved,
                    Err(e) => Outcome::Dropped(e),
                }
            },
            Command::Char(movement) => {
                if self.mode == AppState::Travel {
                    return Outcome::Refused;
                }
                match move_char(&mut self.cursor, &self.tree, movement) {
                    Ok(()) => Outcome::Moved,
                    Err(e) => Outcome::Dropped(e),
                }
            },
            Command::Insert(input) => {
                if self.mode != AppState::Insert {
                    return Outcome::Refused;
                }
                match process_insert(&mut self.tree, &mut self.cursor, input) {
                    Ok(node) => Outcome::Edited(node),
                    Err(e) => Outcome::Dropped(e),
                }
            },
            Command::Mode(mode) => {
                self.mode = mode;
                if mode != AppState::Travel {
                    let _ = setup_char_zipper(&mut self.cursor, &self.tree);
                }
                Outcome::Switched
            },
            Command::Save(_) => Outcome::Saved(self.tree.save_text()),
        }
    }

    /// Carries out the commands of one tick strictly in the order given,
    /// each one completed before the next is looked at, and returns what
    /// became of each.
    pub fn run(&mut self, commands: Vec<Command>) -> (outcomes: Vec<Outcome>)
        requires
            old(self).wf(),
        ensures
            final(self).wf(),
            final(self)@ == old(self)@.after_all(commands@),
            outcomes@.len() == commands@.len(),
            forall|k: int|
                0 <= k < commands@.len() ==> old(self)@.after_all(commands@.take(k)).reports(
                    commands@[k],
                    #[trigger] outcomes@[k],
                ),
    {
        let mut outcomes: Vec<Outcome> = Vec::new();
        let ghost all = commands@;
        let mut commands = commands;
        let mut rest: Vec<Command> = Vec::new();
        while commands.len() > 0
            invariant
                rest@.len() + commands@.len() == all.len(),
                forall|k: int| 0 <= k < commands@.len() ==> commands@[k] == all[k],
                forall|k: int|
                    0 <= k < rest@.len() ==> #[trigger] rest@[k] == all[all.len() - 1 - k],
            decreases commands@.len(),
        {
            let command = commands.pop().unwrap();
            rest.push(command);
        }
        while rest.len() > 0
            invariant
                self.wf(),
                rest@.len() <= all.len(),
                outcomes@.len() + rest@.len() == all.len(),
                forall|k: int|
                    0 <= k < rest@.len() ==> #[trigger] rest@[k] == all[all.len() - 1 - k],
                self@ == old(self)@.after_all(all.take(all.len() - rest@.len())),
                forall|k: int|
                    0 <= k < outcomes@.len() ==> old(self)@.after_all(all.take(k)).reports(
                        all[k],
                        #[trigger] outcomes@[k],
                    ),
            decreases rest@.len(),
        {
            let ghost done = all.len() - rest@.len();
            let command = rest.pop().unwrap();
            proof {
                assert(command == all[done]);
                assert(all.take(done + 1).drop_last() =~= all.take(done));
            }
            let outcome = self.apply(command);
            outcomes.push(outcome);
        }
        assert(all.take(all.len() as int) =~= all);
        outcomes
    }
}

impl EditorView {
    /// Whether `outcome` is what becomes of `command` in this session:
    /// refused where the mode does not take it; moved or dropped, with the
    /// reason, for a movement; edited, with the node, or dropped off the
    /// character level for an input of insert mode; switched for a switch
    /// of mode; and the text of the document for a request to save.
    pub open spec fn reports(self, command: Command, outcome: Outcome) -> bool {
        match outcome {
            Outcome::Refused => !self.permits(command),
            Outcome::Moved => self.permits(command) && match command {
                Command::Move(inst) => self.cursor.step(self.tree, inst) is Ok,
                Command::Char(movement) => self.cursor.char_move(self.tree, movement) is Ok,
                _ => false,
            },
            Outcome::Dropped(e) => self.permits(command) && match command {
                Command::Move(inst) => self.cursor.step(self.tree, inst) == Err::<
                    CursorView,
                    MoveError,
                >(e),
                Command::Char(movement) => self.cursor.char_move(self.tree, movement) == Err::<
                    CursorView,
                    MoveError,
                >(e),
                Command::Insert(_) => self.cursor.level() != ZipperType::Character && e
                    == MoveError::WrongLevel,
                _ => false,
            },
            Outcome::Edited(node) => self.permits(command) && match command {
                Command::Insert(input) => self.cursor.level() == ZipperType::Character && node
                    == edited_node(self.tree, self.cursor, input),
                _ => false,
            },
            Outcome::Switched => command is Mode,
            Outcome::Saved(text) => command is Save && text@ == self.tree.saved_text(),
        }
    }

    /// The session after the commands of one tick, taken in order.
    pub open spec fn after_all(self, commands: Seq<Command>) -> EditorView
        decreases commands.len(),
    {
        if commands.len() == 0 {
            self
        } else {
            self.after_all(commands.drop_last()).after(commands.last())
        }
    }
}

} // verus!
