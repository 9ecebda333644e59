use zipper_editor::edit::{delete_backward, delete_forward, insert, process_insert};
use zipper_editor::{
    AppState, Command, Cursor, DocumentTree, Editor, InsertChar, MoveError, MoveInstruction,
    Outcome, ZipperType,
};

fn at_character(text: &str, path: [usize; 3]) -> (DocumentTree, Cursor) {
    let tree = DocumentTree::from_text(text);
    let mut cursor = Cursor::new(tree.root());
    assert_eq!(cursor.move_child(&tree, 0), Ok(()));
    for index in path {
        assert_eq!(cursor.move_child(&tree, index), Ok(()));
    }
    (tree, cursor)
}

fn span_texts(tree: &DocumentTree, span: usize) -> Vec<String> {
    tree.children(span).iter().map(|c| tree.text(*c).to_string()).collect()
}

fn row(cursor: &Cursor) -> Vec<usize> {
    let mut row = cursor.left();
    row.push(cursor.focus());
    row.extend(cursor.right());
    row
}

#[test]
fn typing_puts_the_text_left_of_the_focus() {
    let (mut tree, mut cursor) = at_character("hi", [0, 0, 1]);
    let focus = cursor.focus();
    let span = cursor.parent_focus();
    let before = tree.len();
    let node = insert(&mut tree, &mut cursor, "x".to_string()).unwrap();
    assert_eq!(node, before);
    assert_eq!(tree.len(), before + 1);
    assert_eq!(tree.kind(node), ZipperType::Character);
    assert_eq!(tree.text(node), "x");
    assert_eq!(cursor.focus(), focus);
    assert_eq!(cursor.left().last(), Some(&node));
    assert_eq!(cursor.left().len(), 2);
    assert_eq!(span_texts(&tree, span), vec!["h", "x", "i"]);
    assert_eq!(&row(&cursor), tree.children(span));
    assert_eq!(tree.save_text(), "hxi\n");
}

#[test]
fn typing_a_run_keeps_it_as_one_character() {
    let (mut tree, mut cursor) = at_character("hi", [0, 0, 0]);
    let span = cursor.parent_focus();
    insert(&mut tree, &mut cursor, "abc".to_string()).unwrap();
    assert_eq!(span_texts(&tree, span), vec!["abc", "h", "i"]);
    assert_eq!(tree.save_text(), "abchi\n");
}

#[test]
fn typing_twice_keeps_the_order_typed() {
    let (mut tree, mut cursor) = at_character("z", [0, 0, 0]);
    insert(&mut tree, &mut cursor, "a".to_string()).unwrap();
    insert(&mut tree, &mut cursor, "b".to_string()).unwrap();
    assert_eq!(tree.save_text(), "abz\n");
    assert_eq!(tree.text(cursor.focus()), "z");
}

#[test]
fn insert_then_delete_backward_restores_tree_and_cursor() {
    let (mut tree, mut cursor) = at_character("ab cd\nef", [0, 1, 1]);
    let saved = tree.save_text();
    let (focus, left, right) = (cursor.focus(), cursor.left(), cursor.right());
    let count = tree.len();
    let children: Vec<Vec<usize>> = (0..count).map(|n| tree.children(n).clone()).collect();
    let node = insert(&mut tree, &mut cursor, "x".to_string()).unwrap();
    assert_eq!(tree.save_text(), "ab cxd\nef\n");
    assert_eq!(delete_backward(&mut tree, &mut cursor), Ok(node));
    assert_eq!(tree.save_text(), saved);
    assert_eq!(cursor.focus(), focus);
    assert_eq!(cursor.left(), left);
    assert_eq!(cursor.right(), right);
    assert_eq!(cursor.depth(), 5);
    for n in 0..count {
        assert_eq!(tree.children(n), &children[n]);
    }
}

#[test]
fn delete_backward_takes_the_left_neighbour() {
    let (mut tree, mut cursor) = at_character("abc", [0, 0, 2]);
    let focus = cursor.focus();
    let gone = cursor.left()[1];
    assert_eq!(delete_backward(&mut tree, &mut cursor), Ok(gone));
    assert_eq!(cursor.focus(), focus);
    assert_eq!(cursor.left().len(), 1);
    assert_eq!(tree.save_text(), "ac\n");
    assert_eq!(&row(&cursor), tree.children(cursor.parent_focus()));
}

#[test]
fn delete_backward_at_the_leftmost_takes_the_focus() {
    let (mut tree, mut cursor) = at_character("abc", [0, 0, 0]);
    let focus = cursor.focus();
    let next = cursor.right()[0];
    assert_eq!(delete_backward(&mut tree, &mut cursor), Ok(focus));
    assert_eq!(cursor.focus(), next);
    assert!(cursor.left().is_empty());
    assert_eq!(cursor.right().len(), 1);
    assert_eq!(tree.save_text(), "bc\n");
    assert_eq!(&row(&cursor), tree.children(cursor.parent_focus()));
}

#[test]
fn delete_backward_of_the_only_character_ascends() {
    let (mut tree, mut cursor) = at_character("a b", [0, 1, 0]);
    let focus = cursor.focus();
    let span = cursor.parent_focus();
    assert_eq!(delete_backward(&mut tree, &mut cursor), Ok(focus));
    assert_eq!(cursor.level(), ZipperType::Span);
    assert_eq!(cursor.depth(), 4);
    assert_eq!(cursor.focus(), span);
    assert!(tree.children(span).is_empty());
    assert_eq!(tree.save_text(), "a \n");
}

#[test]
fn delete_forward_prefers_the_right_neighbour() {
    let (mut tree, mut cursor) = at_character("abc", [0, 0, 1]);
    let focus = cursor.focus();
    let next = cursor.right()[0];
    assert_eq!(delete_forward(&mut tree, &mut cursor), Ok(focus));
    assert_eq!(cursor.focus(), next);
    assert_eq!(cursor.left().len(), 1);
    assert!(cursor.right().is_empty());
    assert_eq!(tree.save_text(), "ac\n");
    assert_eq!(&row(&cursor), tree.children(cursor.parent_focus()));
}

#[test]
fn delete_forward_at_the_rightmost_falls_back_to_the_left() {
    let (mut tree, mut cursor) = at_character("abc", [0, 0, 2]);
    let focus = cursor.focus();
    let previous = cursor.left()[1];
    assert_eq!(delete_forward(&mut tree, &mut cursor), Ok(focus));
    assert_eq!(cursor.focus(), previous);
    assert_eq!(cursor.left().len(), 1);
    assert!(cursor.right().is_empty());
    assert_eq!(tree.save_text(), "ab\n");
    assert_eq!(&row(&cursor), tree.children(cursor.parent_focus()));
}

#[test]
fn delete_forward_of_the_only_character_ascends() {
    let (mut tree, mut cursor) = at_character("a", [0, 0, 0]);
    let focus = cursor.focus();
    let span = cursor.parent_focus();
    assert_eq!(delete_forward(&mut tree, &mut cursor), Ok(focus));
    assert_eq!(cursor.level(), ZipperType::Span);
    assert_eq!(cursor.focus(), span);
    assert_eq!(tree.save_text(), "\n");
    assert_eq!(cursor.move_child(&tree, 0), Err(MoveError::NoChildren));
    assert_eq!(cursor.focus(), span);
}

#[test]
fn a_deleted_node_stays_in_the_arena() {
    let (mut tree, mut cursor) = at_character("ab", [0, 0, 0]);
    let count = tree.len();
    let gone = delete_forward(&mut tree, &mut cursor).unwrap();
    assert_eq!(tree.len(), count);
    assert_eq!(tree.text(gone), "a");
}

#[test]
fn edits_off_the_character_level_are_wrong_level() {
    let mut tree = DocumentTree::from_text("ab");
    let mut cursor = Cursor::new(tree.root());
    for _ in 0..4 {
        assert_eq!(
            insert(&mut tree, &mut cursor, "x".to_string()),
            Err(MoveError::WrongLevel)
        );
        assert_eq!(delete_backward(&mut tree, &mut cursor), Err(MoveError::WrongLevel));
        assert_eq!(delete_forward(&mut tree, &mut cursor), Err(MoveError::WrongLevel));
        assert_eq!(tree.save_text(), "ab\n");
        assert_eq!(cursor.move_child(&tree, 0), Ok(()));
    }
    assert_eq!(cursor.level(), ZipperType::Character);
}

#[test]
fn process_insert_routes_the_three_inputs() {
    let (mut tree, mut cursor) = at_character("abc", [0, 0, 1]);
    let typed = process_insert(&mut tree, &mut cursor, InsertChar::Str("x".to_string()));
    assert_eq!(typed, Ok(tree.len() - 1));
    assert_eq!(tree.save_text(), "axbc\n");
    assert!(process_insert(&mut tree, &mut cursor, InsertChar::Delete).is_ok());
    assert_eq!(tree.save_text(), "abc\n");
    assert!(process_insert(&mut tree, &mut cursor, InsertChar::ForwardDelete).is_ok());
    assert_eq!(tree.save_text(), "ac\n");
    assert_eq!(tree.text(cursor.focus()), "c");
}

#[test]
fn edits_touch_only_the_span_under_the_cursor() {
    let (mut tree, mut cursor) = at_character("ab cd\nef", [0, 1, 0]);
    let span = cursor.parent_focus();
    let count = tree.len();
    let children: Vec<Vec<usize>> = (0..count).map(|n| tree.children(n).clone()).collect();
    insert(&mut tree, &mut cursor, "x".to_string()).unwrap();
    delete_forward(&mut tree, &mut cursor).unwrap();
    for n in 0..count {
        if n != span {
            assert_eq!(tree.children(n), &children[n]);
        }
    }
    assert_eq!(tree.save_text(), "ab xd\nef\n");
    for _ in 0..4 {
        assert_eq!(&row(&cursor), tree.children(cursor.parent_focus()));
        assert_eq!(cursor.move_parent(), Ok(()));
    }
}

#[test]
fn the_editor_types_only_in_insert_mode() {
    let mut editor = Editor::new("ab");
    let typed = Command::Insert(InsertChar::Str("x".to_string()));
    assert_eq!(editor.apply(Command::Mode(AppState::Normal)), Outcome::Switched);
    assert_eq!(editor.apply(typed.clone()), Outcome::Refused);
    assert_eq!(editor.apply(Command::Mode(AppState::Insert)), Outcome::Switched);
    let before = editor.tree().len();
    assert_eq!(editor.apply(typed), Outcome::Edited(before));
    assert_eq!(editor.tree().save_text(), "xab\n");
    assert_eq!(editor.apply(Command::Insert(InsertChar::Delete)), Outcome::Edited(before));
    assert_eq!(editor.tree().save_text(), "ab\n");
}

#[test]
fn the_editor_drops_edits_off_the_character_level() {
    let mut editor = Editor::new("a");
    editor.apply(Command::Mode(AppState::Insert));
    let focus = editor.focus();
    assert_eq!(
        editor.apply(Command::Insert(InsertChar::ForwardDelete)),
        Outcome::Edited(focus)
    );
    assert_eq!(editor.cursor().level(), ZipperType::Span);
    assert_eq!(
        editor.apply(Command::Insert(InsertChar::Str("x".to_string()))),
        Outcome::Dropped(MoveError::WrongLevel)
    );
    assert_eq!(
        editor.apply(Command::Insert(InsertChar::Delete)),
        Outcome::Dropped(MoveError::WrongLevel)
    );
    assert_eq!(editor.tree().save_text(), "\n");
    editor.apply(Command::Mode(AppState::Travel));
    assert_eq!(
        editor.apply(Command::Move(MoveInstruction::Child(0))),
        Outcome::Dropped(MoveError::NoChildren)
    );
}
