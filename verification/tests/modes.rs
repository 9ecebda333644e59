use zipper_editor::mode::{
    control_insert, control_normal, control_travel, decode, setup_char_zipper, single_char,
};
use zipper_editor::{
    AppState, Command, Cursor, DocumentTree, Editor, InsertChar, Key, KeyPress, MoveChar,
    MoveError, MoveInstruction, Outcome, Save, ZipperType,
};

fn down(key: Key) -> KeyPress {
    KeyPress { key, pressed: true }
}

fn texts(runs: &[&str]) -> Vec<String> {
    runs.iter().map(|run| run.to_string()).collect()
}

#[test]
fn a_session_starts_in_normal_mode_on_the_window() {
    assert_eq!(AppState::default(), AppState::Normal);
    let editor = Editor::new("ab");
    assert_eq!(editor.mode(), AppState::Normal);
    assert_eq!(editor.cursor().depth(), 1);
    assert_eq!(editor.focus(), editor.tree().root());
    assert_eq!(editor.cursor().level(), ZipperType::Window);
}

#[test]
fn entering_normal_mode_descends_to_the_first_character() {
    let mut editor = Editor::new("ab cd\nef");
    assert_eq!(editor.apply(Command::Mode(AppState::Normal)), Outcome::Switched);
    assert_eq!(editor.mode(), AppState::Normal);
    assert_eq!(editor.cursor().level(), ZipperType::Character);
    assert_eq!(editor.cursor().depth(), 5);
    assert_eq!(editor.tree().text(editor.focus()), "a");
    assert!(editor.cursor().left().is_empty());
}

#[test]
fn entering_insert_mode_descends_from_where_the_cursor_is() {
    let mut editor = Editor::new("ab\ncd ef");
    editor.apply(Command::Mode(AppState::Travel));
    for inst in [
        MoveInstruction::Child(0),
        MoveInstruction::Child(1),
        MoveInstruction::Child(1),
    ] {
        assert_eq!(editor.apply(Command::Move(inst)), Outcome::Moved);
    }
    assert_eq!(editor.cursor().level(), ZipperType::Span);
    assert_eq!(editor.apply(Command::Mode(AppState::Insert)), Outcome::Switched);
    assert_eq!(editor.mode(), AppState::Insert);
    assert_eq!(editor.cursor().level(), ZipperType::Character);
    assert_eq!(editor.tree().text(editor.focus()), "e");
}

#[test]
fn entering_a_character_mode_on_a_character_stays_put() {
    let mut editor = Editor::new("abc");
    editor.apply(Command::Mode(AppState::Normal));
    editor.apply(Command::Char(MoveChar::Right));
    let focus = editor.focus();
    editor.apply(Command::Mode(AppState::Insert));
    assert_eq!(editor.focus(), focus);
    editor.apply(Command::Mode(AppState::Normal));
    assert_eq!(editor.focus(), focus);
}

#[test]
fn entering_travel_mode_leaves_the_cursor() {
    let mut editor = Editor::new("abc");
    assert_eq!(editor.apply(Command::Mode(AppState::Travel)), Outcome::Switched);
    assert_eq!(editor.mode(), AppState::Travel);
    assert_eq!(editor.cursor().depth(), 1);
}

#[test]
fn setup_char_zipper_counts_the_levels_descended() {
    let tree = DocumentTree::from_text("ab");
    let mut cursor = Cursor::new(tree.root());
    assert_eq!(setup_char_zipper(&mut cursor, &tree), 4);
    assert_eq!(cursor.level(), ZipperType::Character);
    assert_eq!(setup_char_zipper(&mut cursor, &tree), 0);
    assert_eq!(cursor.move_parent(), Ok(()));
    assert_eq!(cursor.move_parent(), Ok(()));
    assert_eq!(setup_char_zipper(&mut cursor, &tree), 2);
    assert_eq!(tree.text(cursor.focus()), "a");
}

#[test]
fn travel_mode_browses_every_level() {
    let mut editor = Editor::new("ab cd\nef");
    editor.apply(Command::Mode(AppState::Travel));
    assert_eq!(
        editor.apply(Command::Move(MoveInstruction::Parent)),
        Outcome::Dropped(MoveError::AtRoot)
    );
    assert_eq!(
        editor.apply(Command::Move(MoveInstruction::Left)),
        Outcome::Dropped(MoveError::NoSiblings)
    );
    let levels =
        [ZipperType::Document, ZipperType::Line, ZipperType::Span, ZipperType::Character];
    for level in levels {
        assert_eq!(editor.apply(Command::Move(MoveInstruction::Child(0))), Outcome::Moved);
        assert_eq!(editor.cursor().level(), level);
    }
    assert_eq!(
        editor.apply(Command::Move(MoveInstruction::Child(0))),
        Outcome::Dropped(MoveError::WrongLevel)
    );
    assert_eq!(editor.apply(Command::Move(MoveInstruction::Parent)), Outcome::Moved);
    assert_eq!(editor.apply(Command::Move(MoveInstruction::Right)), Outcome::Moved);
    assert_eq!(editor.cursor().level(), ZipperType::Span);
    assert_eq!(editor.apply(Command::Move(MoveInstruction::Left)), Outcome::Moved);
}

#[test]
fn each_mode_refuses_the_commands_of_the_others() {
    let mut editor = Editor::new("ab");
    editor.apply(Command::Mode(AppState::Normal));
    let focus = editor.focus();
    assert_eq!(editor.apply(Command::Move(MoveInstruction::Parent)), Outcome::Refused);
    assert_eq!(editor.apply(Command::Insert(InsertChar::Delete)), Outcome::Refused);
    assert_eq!(editor.focus(), focus);
    assert_eq!(editor.cursor().depth(), 5);
    editor.apply(Command::Mode(AppState::Insert));
    assert_eq!(editor.apply(Command::Move(MoveInstruction::Parent)), Outcome::Refused);
    assert_eq!(editor.apply(Command::Char(MoveChar::Right)), Outcome::Moved);
    editor.apply(Command::Mode(AppState::Travel));
    let focus = editor.focus();
    assert_eq!(editor.apply(Command::Char(MoveChar::Left)), Outcome::Refused);
    assert_eq!(editor.apply(Command::Insert(InsertChar::ForwardDelete)), Outcome::Refused);
    assert_eq!(editor.focus(), focus);
    assert_eq!(editor.tree().save_text(), "ab\n");
}

#[test]
fn save_hands_out_the_text_in_every_mode() {
    let mut editor = Editor::new("hi there\nbye");
    for mode in [AppState::Normal, AppState::Insert, AppState::Travel] {
        editor.apply(Command::Mode(mode));
        assert_eq!(
            editor.apply(Command::Save(Save)),
            Outcome::Saved("hi there\nbye\n".to_string())
        );
    }
}

#[test]
fn a_tick_is_carried_out_in_order() {
    let mut editor = Editor::new("ab");
    let outcomes = editor.run(vec![
        Command::Mode(AppState::Insert),
        Command::Insert(InsertChar::Str("x".to_string())),
        Command::Insert(InsertChar::Str("y".to_string())),
        Command::Move(MoveInstruction::Parent),
        Command::Insert(InsertChar::Delete),
        Command::Char(MoveChar::Left),
        Command::Char(MoveChar::Left),
        Command::Save(Save),
    ]);
    let count = editor.tree().len();
    assert_eq!(
        outcomes,
        vec![
            Outcome::Switched,
            Outcome::Edited(count - 2),
            Outcome::Edited(count - 1),
            Outcome::Refused,
            Outcome::Edited(count - 1),
            Outcome::Moved,
            Outcome::Dropped(MoveError::NoSiblings),
            Outcome::Saved("xab\n".to_string()),
        ]
    );
    assert_eq!(editor.tree().text(editor.focus()), "x");
    assert!(editor.run(Vec::new()).is_empty());
}

#[test]
fn single_char_takes_exactly_one_character() {
    assert_eq!(single_char("h"), Some('h'));
    assert_eq!(single_char("é"), Some('é'));
    assert_eq!(single_char(""), None);
    assert_eq!(single_char("hh"), None);
}

#[test]
fn normal_mode_keys() {
    let left = Some(Command::Char(MoveChar::Left));
    let right = Some(Command::Char(MoveChar::Right));
    let line_down = Some(Command::Char(MoveChar::LineDown));
    let line_up = Some(Command::Char(MoveChar::LineUp));
    for control in [false, true] {
        assert_eq!(control_normal("h", control), left);
        assert_eq!(control_normal("a", control), left);
        assert_eq!(control_normal("l", control), right);
        assert_eq!(control_normal("d", control), right);
        assert_eq!(control_normal("j", control), line_down);
        assert_eq!(control_normal("w", control), line_down);
        assert_eq!(control_normal("k", control), line_up);
        assert_eq!(control_normal("i", control), Some(Command::Mode(AppState::Insert)));
        assert_eq!(control_normal("x", control), None);
        assert_eq!(control_normal("", control), None);
        assert_eq!(control_normal("hl", control), None);
    }
    assert_eq!(control_normal("s", false), line_up);
    assert_eq!(control_normal("s", true), Some(Command::Save(Save)));
    assert_eq!(control_normal("t", false), None);
    assert_eq!(control_normal("t", true), Some(Command::Mode(AppState::Travel)));
}

#[test]
fn travel_mode_keys() {
    let left = Some(Command::Move(MoveInstruction::Left));
    let right = Some(Command::Move(MoveInstruction::Right));
    let child = Some(Command::Move(MoveInstruction::Child(0)));
    let parent = Some(Command::Move(MoveInstruction::Parent));
    for control in [false, true] {
        assert_eq!(control_travel("h", control), left);
        assert_eq!(control_travel("a", control), left);
        assert_eq!(control_travel("l", control), right);
        assert_eq!(control_travel("d", control), right);
        assert_eq!(control_travel("j", control), child);
        assert_eq!(control_travel("w", control), child);
        assert_eq!(control_travel("k", control), parent);
        assert_eq!(control_travel("i", control), None);
        assert_eq!(control_travel("x", control), None);
        assert_eq!(control_travel("", control), None);
        assert_eq!(control_travel("jk", control), None);
    }
    assert_eq!(control_travel("s", false), parent);
    assert_eq!(control_travel("s", true), Some(Command::Save(Save)));
    assert_eq!(control_travel("t", false), None);
    assert_eq!(control_travel("t", true), Some(Command::Mode(AppState::Normal)));
}

#[test]
fn insert_mode_types_the_text_of_the_tick() {
    let typed = |run: &str| Command::Insert(InsertChar::Str(run.to_string()));
    assert_eq!(
        control_insert(&Vec::new(), &texts(&["a", "bc", "t", "s"])),
        vec![typed("a"), typed("bc"), typed("t"), typed("s")]
    );
    assert_eq!(control_insert(&Vec::new(), &Vec::new()), Vec::new());
    assert_eq!(control_insert(&vec![down(Key::Other)], &texts(&["a"])), vec![typed("a")]);
    let up = KeyPress { key: Key::Escape, pressed: false };
    assert_eq!(control_insert(&vec![up], &texts(&["a"])), vec![typed("a")]);
}

#[test]
fn insert_mode_keys_swallow_the_text_of_the_tick() {
    assert_eq!(
        control_insert(&vec![down(Key::Escape)], &texts(&["\u{1b}"])),
        vec![Command::Mode(AppState::Normal)]
    );
    assert_eq!(
        control_insert(&vec![down(Key::Delete)], &texts(&["\u{7f}"])),
        vec![Command::Insert(InsertChar::ForwardDelete)]
    );
    assert_eq!(
        control_insert(&vec![down(Key::Backspace)], &texts(&["\u{8}"])),
        vec![Command::Insert(InsertChar::Delete)]
    );
    assert_eq!(
        control_insert(
            &vec![down(Key::Backspace), down(Key::Other), down(Key::Delete), down(Key::Escape)],
            &texts(&["a"])
        ),
        vec![
            Command::Insert(InsertChar::Delete),
            Command::Insert(InsertChar::ForwardDelete),
            Command::Mode(AppState::Normal),
        ]
    );
}

#[test]
fn insert_mode_control_commands() {
    let control = vec![down(Key::ControlLeft)];
    assert_eq!(
        control_insert(&control, &texts(&["t"])),
        vec![Command::Mode(AppState::Travel)]
    );
    assert_eq!(control_insert(&control, &texts(&["s"])), vec![Command::Save(Save)]);
    assert_eq!(control_insert(&control, &texts(&["x"])), Vec::new());
    assert_eq!(control_insert(&control, &texts(&["x", "s"])), Vec::new());
    assert_eq!(control_insert(&control, &texts(&["s", "a"])), vec![Command::Save(Save)]);
    assert_eq!(control_insert(&control, &Vec::new()), Vec::new());
    let released = vec![KeyPress { key: Key::ControlLeft, pressed: false }];
    assert_eq!(
        control_insert(&released, &texts(&["s"])),
        vec![Command::Insert(InsertChar::Str("s".to_string()))]
    );
    assert_eq!(
        control_insert(&vec![down(Key::ControlLeft), down(Key::Backspace)], &texts(&["s"])),
        vec![Command::Insert(InsertChar::Delete)]
    );
}

#[test]
fn a_tick_is_decoded_in_the_mode_of_the_session() {
    let input = texts(&["h", "x", "s", "i"]);
    assert_eq!(
        decode(AppState::Normal, &vec![down(Key::Escape)], &input, false),
        vec![
            Command::Char(MoveChar::Left),
            Command::Char(MoveChar::LineUp),
            Command::Mode(AppState::Insert),
        ]
    );
    assert_eq!(
        decode(AppState::Travel, &Vec::new(), &input, true),
        vec![Command::Move(MoveInstruction::Left), Command::Save(Save)]
    );
    assert_eq!(
        decode(AppState::Travel, &vec![down(Key::Other), down(Key::Escape)], &input, false),
        vec![
            Command::Mode(AppState::Normal),
            Command::Move(MoveInstruction::Left),
            Command::Move(MoveInstruction::Parent),
        ]
    );
    let released = vec![KeyPress { key: Key::Escape, pressed: false }];
    assert_eq!(decode(AppState::Travel, &released, &Vec::new(), false), Vec::new());
    assert_eq!(
        decode(AppState::Insert, &vec![down(Key::Backspace)], &input, false),
        vec![Command::Insert(InsertChar::Delete)]
    );
    assert_eq!(
        decode(AppState::Insert, &Vec::new(), &texts(&["h"]), true),
        vec![Command::Insert(InsertChar::Str("h".to_string()))]
    );
}
