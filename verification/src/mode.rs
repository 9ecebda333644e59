//! The modes of the editor and the keys of each mode.
//!
//! Travel mode browses the tree at any level. Normal mode moves by
//! characters and lines. Insert mode types and deletes. Entering normal or
//! insert mode takes the cursor down to a character first.

use vstd::prelude::*;
use vstd::string::StrSliceExecFns;
use crate::cursor::{
    lemma_depth_is_level, lemma_move_child_wf, Cursor, CursorView, MoveInstruction,
};
use crate::edit::InsertChar;
use crate::navigate::MoveChar;
use crate::tree::{DocumentTree, TreeView};

verus! {

/// The mode of the editing session.
#[derive(Clone, Copy, PartialEq, Eq, Hash, Debug, Structural)]
pub enum AppState {
    Normal,
    Insert,
    Travel,
}

impl Default for AppState {
    /// A session starts in normal mode.
    fn default() -> (mode: AppState)
        ensures
            mode == AppState::Normal,
    {
        AppState::Normal
    }
}

/// The request to save the document.
#[derive(Clone, Copy, PartialEq, Eq, Debug)]
pub struct Save;

/// What the editor can be asked to do.
#[derive(Clone, PartialEq, Eq, Debug)]
pub enum Command {
    /// A structural movement, as travel mode issues it.
    Move(MoveInstruction),
    /// A movement by a character or a line, as normal mode issues it.
    Char(MoveChar),
    /// Typed text or a deletion, as insert mode issues it.
    Insert(InsertChar),
    /// A switch to the given mode.
    Mode(AppState),
    /// A request for the text to save.
    Save(Save),
}

/// The keys that matter beside text.
#[derive(Clone, Copy, PartialEq, Eq, Debug, Structural)]
pub enum Key {
    Escape,
    Delete,
    Backspace,
    ControlLeft,
    Other,
}

/// A key going down or up.
#[derive(Clone, Copy, PartialEq, Eq, Debug)]
pub struct KeyPress {
    pub key: Key,
    pub pressed: bool,
}

impl CursorView {
    /// The cursor after descending to the first child again and again,
    /// until it rests on a character or on a node without children.
    pub open spec fn descend(self, tree: TreeView) -> CursorView
        decreases 5 - self.level().depth(),
    {
        if self.can_move_child(tree) {
            self.move_child(tree, 0).descend(tree)
        } else {
            self
        }
    }
}

/// Descending to a character keeps the cursor in agreement with the tree.
pub proof fn lemma_descend_wf(cursor: CursorView, tree: TreeView)
    requires
        tree.wf(),
        cursor.wf(tree),
    ensures
        cursor.descend(tree).wf(tree),
        !cursor.descend(tree).can_move_child(tree),
    decreases 5 - cursor.level().depth(),
{
    if cursor.can_move_child(tree) {
        lemma_move_child_wf(cursor, tree, 0);
        lemma_descend_wf(cursor.move_child(tree, 0), tree);
    }
}

/// Takes the cursor down to a character, as entering normal or insert mode
/// requires: it descends to the first child until it rests on a character.
/// Where a node on the way has no children the descent ends there. Returns
/// how many levels were descended; none where the cursor was on a character
/// already.
pub fn setup_char_zipper(cursor: &mut Cursor, tree: &DocumentTree) -> (descended: usize)
    requires
        old(cursor).wf(tree),
    ensures
        final(cursor).wf(tree),
        final(cursor)@ == old(cursor)@.descend(tree@),
        descended == final(cursor)@.depth() - old(cursor)@.depth(),
{
    let mut descended: usize = 0;
    loop
        invariant
            cursor.wf(tree),
            cursor@.descend(tree@) == old(cursor)@.descend(tree@),
            descended == cursor@.depth() - old(cursor)@.depth(),
            descended <= 5,
        ensures
            cursor.wf(tree),
            cursor@ == old(cursor)@.descend(tree@),
            descended == cursor@.depth() - old(cursor)@.depth(),
        decreases 5 - cursor@.level().depth(),
    {
        match cursor.move_child(tree, 0) {
            Ok(()) => {
                proof {
                    lemma_depth_is_level(cursor@, tree@);
                }
                descended += 1;
            },
            Err(_) => {
                break ;
            },
        }
    }
    descended
}

/// The one character that `text` consists of, if it consists of one.
pub fn single_char(text: &str) -> (only: Option<char>)
    ensures
        match only {
            Some(c) => text@ == seq![c],
            None => text@.len() != 1,
        },
{
    if text.unicode_len() == 1 {
        let c = text.get_char(0);
        assert(text@ =~= seq![c]);
        Some(c)
    } else {
        None
    }
}

/// The command of a text input in normal mode. `h` or `a` moves a character
/// left, `l` or `d` right, `j` or `w` a line down, `k` or `s` a line up; `i`
/// enters insert mode; with control held, `t` enters travel mode and `s`
/// saves. Anything else is no command.
pub open spec fn normal_command(text: Seq<char>, control: bool) -> Option<Command> {
    if text.len() != 1 {
        None
    } else if text[0] == 'h' || text[0] == 'a' {
        Some(Command::Char(MoveChar::Left))
    } else if text[0] == 'l' || text[0] == 'd' {
        Some(Command::Char(MoveChar::Right))
    } else if text[0] == 'j' || text[0] == 'w' {
        Some(Command::Char(MoveChar::LineDown))
    } else if text[0] == 'k' {
        Some(Command::Char(MoveChar::LineUp))
    } else if text[0] == 'i' {
        Some(Command::Mode(AppState::Insert))
    } else if text[0] == 't' && control {
        Some(Command::Mode(AppState::Travel))
    } else if text[0] == 's' {
        if control {
            Some(Command::Save(Save))
        } else {
            Some(Command::Char(MoveChar::LineUp))
        }
    } else {
        None
    }
}

/// The command of a text input in travel mode. With control held, `s` saves
/// and `t` returns to normal mode. Otherwise `h` or `a` moves to the sibling
/// on the left, `l` or `d` to the one on the right, `j` or `w` descends to
/// the first child, `k` or `s` ascends. Anything else is no command.
pub open spec fn travel_command(text: Seq<char>, control: bool) -> Option<Command> {
    if text.len() != 1 {
        None
    } else if text[0] == 's' && control {
        Some(Command::Save(Save))
    } else if text[0] == 't' && control {
        Some(Command::Mode(AppState::Normal))
    } else if text[0] == 'h' || text[0] == 'a' {
        Some(Command::Move(MoveInstruction::Left))
    } else if text[0] == 'l' || text[0] == 'd' {
        Some(Command::Move(MoveInstruction::Right))
    } else if text[0] == 'j' || text[0] == 'w' {
        Some(Command::Move(MoveInstruction::Child(0)))
    } else if text[0] == 'k' || text[0] == 's' {
        Some(Command::Move(MoveInstruction::Parent))
    } else {
        None
    }
}

/// The command of a key in insert mode: escape returns to normal mode,
/// delete deletes forward, backspace deletes backward, each when the key
/// goes down. Anything else is no command.
pub open spec fn insert_key_command(press: KeyPress) -> Option<Command> {
    if !press.pressed {
        None
    } else {
        match press.key {
            Key::Escape => Some(Command::Mode(AppState::Normal)),
            Key::Delete => Some(Command::Insert(InsertChar::ForwardDelete)),
            Key::Backspace => Some(Command::Insert(InsertChar::Delete)),
            _ => None,
        }
    }
}

/// The command of a text input in insert mode that arrives with control
/// down: `t` enters travel mode, `s` saves, anything else is no command.
pub open spec fn insert_control_command(text: Seq<char>) -> Option<Command> {
    if text.len() != 1 {
        None
    } else if text[0] == 't' {
        Some(Command::Mode(AppState::Travel))
    } else if text[0] == 's' {
        Some(Command::Save(Save))
    } else {
        None
    }
}

/// The commands of the keys of one tick in insert mode, in order.
pub open spec fn key_commands(keys: Seq<KeyPress>) -> Seq<Command>
    decreases keys.len(),
{
    if keys.len() == 0 {
        Seq::empty()
    } else {
        match insert_key_command(keys.last()) {
            Some(command) => key_commands(keys.drop_last()).push(command),
            None => key_commands(keys.drop_last()),
        }
    }
}

/// Whether one of `keys` carries a command of its own. The text that
/// arrives in the same tick belongs to that key and is not typed.
pub open spec fn swallows_text(keys: Seq<KeyPress>) -> bool
    decreases keys.len(),
{
    keys.len() > 0 && (swallows_text(keys.drop_last()) || insert_key_command(keys.last()) is Some)
}

/// Whether control goes down among `keys`.
pub open spec fn control_down(keys: Seq<KeyPress>) -> bool
    decreases keys.len(),
{
    keys.len() > 0 && (control_down(keys.drop_last()) || (keys.last().pressed && keys.last().key
        == Key::ControlLeft))
}

/// The commands of the text of one tick in insert mode: every run of text
/// is typed, in order.
pub open spec fn typed_commands(chars: Seq<String>) -> Seq<Command> {
    chars.map_values(|text: String| Command::Insert(InsertChar::Str(text)))
}

/// The commands of one tick in insert mode. The keys come first, in order.
/// The text follows unless a key swallowed it: with control down only its
/// first run is looked at, as a control command; otherwise every run is
/// typed.
pub open spec fn insert_commands(keys: Seq<KeyPress>, chars: Seq<String>) -> Seq<Command> {
    key_commands(keys) + (if swallows_text(keys) {
        Seq::empty()
    } else if control_down(keys) {
        if chars.len() > 0 && insert_control_command(chars[0]@) is Some {
            seq![insert_control_command(chars[0]@)->Some_0]
        } else {
            Seq::empty()
        }
    } else {
        typed_commands(chars)
    })
}

/// Decodes the keys and the text of one tick of insert mode.
pub fn control_insert(keys: &Vec<KeyPress>, chars: &Vec<String>) -> (commands: Vec<Command>)
    ensures
        commands@ == insert_commands(keys@, chars@),
{
    let mut commands: Vec<Command> = Vec::new();
    let mut swallowed = false;
    let mut control = false;
    let mut i: usize = 0;
    while i < keys.len()
        invariant
            i <= keys.len(),
            commands@ == key_commands(keys@.take(i as int)),
            swallowed == swallows_text(keys@.take(i as int)),
            control == control_down(keys@.take(i as int)),
        decreases keys.len() - i,
    {
        let press = keys[i];
        proof {
            assert(keys@.take(i + 1).drop_last() =~= keys@.take(i as int));
            assert(keys@.take(i + 1).last() == press);
        }
        if press.pressed {
            match press.key {
                Key::Escape => {
                    commands.push(Command::Mode(AppState::Normal));
                    swallowed = true;
                },
                Key::Delete => {
                    commands.push(Command::Insert(InsertChar::ForwardDelete));
                    swallowed = true;
                },
                Key::Backspace => {
                    commands.push(Command::Insert(InsertChar::Delete));
                    swallowed = true;
                },
                Key::ControlLeft => {
                    control = true;
                },
                Key::Other => {},
            }
        }
        i += 1;
    }
    assert(keys@.take(i as int) =~= keys@);
    let ghost from_keys = commands@;
    if swallowed {
        assert(commands@ =~= insert_commands(keys@, chars@));
    } else if control {
        if chars.len() > 0 {
            match single_char(chars[0].as_str()) {
                Some(c) => {
                    if c == 't' {
                        commands.push(Command::Mode(AppState::Travel));
                    } else if c == 's' {
                        commands.push(Command::Save(Save));
                    }
                },
                None => {},
            }
        }
        assert(commands@ =~= insert_commands(keys@, chars@));
    } else {
        let mut j: usize = 0;
        while j < chars.len()
            invariant
                j <= chars.len(),
                commands@ == from_keys + typed_commands(chars@.take(j as int)),
            decreases chars.len() - j,
        {
            commands.push(Command::Insert(InsertChar::Str(chars[j].clone())));
            proof {
                assert(commands@ =~= from_keys + typed_commands(chars@.take(j + 1)));
            }
            j += 1;
        }
        assert(chars@.take(j as int) =~= chars@);
    }
    commands
}

/// Decodes one text input of normal mode.
pub fn control_normal(text: &str, control: bool) -> (command: Option<Command>)
    ensures
        command == normal_command(text@, control),
{
    match single_char(text) {
        None => None,
        Some(c) => {
            if c == 'h' || c == 'a' {
                Some(Command::Char(MoveChar::Left))
            } else if c == 'l' || c == 'd' {
                Some(Command::Char(MoveChar::Right))
            } else if c == 'j' || c == 'w' {
                Some(Command::Char(MoveChar::LineDown))
            } else if c == 'k' {
                Some(Command::Char(MoveChar::LineUp))
            } else if c == 'i' {
                Some(Command::Mode(AppState::Insert))
            } else if c == 't' && control {
                Some(Command::Mode(AppState::Travel))
            } else if c == 's' {
                if control {
                    Some(Command::Save(Save))
                } else {
                    Some(Command::Char(MoveChar::LineUp))
                }
            } else {
                None
            }
        },
    }
}

/// Decodes one text input of travel mode.
pub fn control_travel(text: &str, control: bool) -> (command: Option<Command>)
    ensures
        command == travel_command(text@, control),
{
    match single_char(text) {
        None => None,
        Some(c) => {
            if c == 's' && control {
                Some(Command::Save(Save))
            } else if c == 't' && control {
                Some(Command::Mode(AppState::Normal))
            } else if c == 'h' || c == 'a' {
                Some(Command::Move(MoveInstruction::Left))
            } else if c == 'l' || c == 'd' {
                Some(Command::Move(MoveInstruction::Right))
            } else if c == 'j' || c == 'w' {
                Some(Command::Move(MoveInstruction::Child(0)))
            } else if c == 'k' || c == 's' {
                Some(Command::Move(MoveInstruction::Parent))
            } else {
                None
            }
        },
    }
}

/// The commands of the text of one tick in normal mode, in order.
pub open spec fn normal_commands(chars: Seq<String>, control: bool) -> Seq<Command>
    decreases chars.len(),
{
    if chars.len() == 0 {
        Seq::empty()
    } else {
        match normal_command(chars.last()@, control) {
            Some(command) => normal_commands(chars.drop_last(), control).push(command),
            None => normal_commands(chars.drop_last(), control),
        }
    }
}

/// The commands of the text of one tick in travel mode, in order.
pub open spec fn travel_commands(chars: Seq<String>, control: bool) -> Seq<Command>
    decreases chars.len(),
{
    if chars.len() == 0 {
        Seq::empty()
    } else {
        match travel_command(chars.last()@, control) {
            Some(command) => travel_commands(chars.drop_last(), control).push(command),
            None => travel_commands(chars.drop_last(), control),
        }
    }
}

/// Whether escape goes down among `keys`.
pub open spec fn escape_down(keys: Seq<KeyPress>) -> bool
    decreases keys.len(),
{
    keys.len() > 0 && (escape_down(keys.drop_last()) || (keys.last().pressed && keys.last().key
        == Key::Escape))
}

/// The commands of one tick: of its text in normal mode; of its text in
/// travel mode, after a return to normal mode where escape went down; of its
/// keys and text in insert mode. `control` says whether control is held.
pub open spec fn tick_commands(
    mode: AppState,
    keys: Seq<KeyPress>,
    chars: Seq<String>,
    control: bool,
) -> Seq<Command> {
    match mode {
        AppState::Normal => normal_commands(chars, control),
        AppState::Travel => (if escape_down(keys) {
            seq![Command::Mode(AppState::Normal)]
        } else {
            Seq::empty()
        }) + travel_commands(chars, control),
        AppState::Insert => insert_commands(keys, chars),
    }
}

/// Decodes the keys and the text of one tick in the given mode.
pub fn decode(mode: AppState, keys: &Vec<KeyPress>, chars: &Vec<String>, control: bool) -> (commands:
    Vec<Command>)
    ensures
        commands@ == tick_commands(mode, keys@, chars@, control),
{
    match mode {
        AppState::Insert => control_insert(keys, chars),
        AppState::Normal => {
            let mut commands: Vec<Command> = Vec::new();
            let mut j: usize = 0;
            while j < chars.len()
                invariant
                    j <= chars.len(),
                    commands@ == normal_commands(chars@.take(j as int), control),
                decreases chars.len() - j,
            {
                proof {
                    assert(chars@.take(j + 1).drop_last() =~= chars@.take(j as int));
                }
                match control_normal(chars[j].as_str(), control) {
                    Some(command) => {
                        commands.push(command);
                    },
                    None => {},
                }
                j += 1;
            }
            assert(chars@.take(j as int) =~= chars@);
            commands
        },
        AppState::Travel => {
            let mut escape = false;
            let mut i: usize = 0;
            while i < keys.len()
                invariant
                    i <= keys.len(),
                    escape == escape_down(keys@.take(i as int)),
                decreases keys.len() - i,
            {
                proof {
                    assert(keys@.take(i + 1).drop_last() =~= keys@.take(i as int));
                }
                if keys[i].pressed && keys[i].key == Key::Escape {
                    escape = true;
                }
                i += 1;
            }
            assert(keys@.take(i as int) =~= keys@);
            let mut commands: Vec<Command> = Vec::new();
            if escape {
                commands.push(Command::Mode(AppState::Normal));
            }
            let ghost first = commands@;
            let mut j: usize = 0;
            while j < chars.len()
                invariant
                    j <= chars.len(),
                    commands@ == first + travel_commands(chars@.take(j as int), control),
                decreases chars.len() - j,
            {
                proof {
                    assert(chars@.take(j + 1).drop_last() =~= chars@.take(j as int));
                }
                match control_travel(chars[j].as_str(), control) {
                    Some(command) => {
                        commands.push(command);
                    },
                    None => {},
                }
                j += 1;
            }
            assert(chars@.take(j as int) =~= chars@);
            commands
        },
    }
}

} // verus!
