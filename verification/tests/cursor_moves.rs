use zipper_editor::movement::{move_transaction, move_zipper};
use zipper_editor::{Cursor, DocumentTree, MoveError, MoveInstruction, ZipperType};

fn descend(cursor: &mut Cursor, tree: &DocumentTree, path: &[usize]) {
    for index in path {
        assert_eq!(cursor.move_child(tree, *index), Ok(()));
    }
}

#[test]
fn a_new_cursor_rests_on_the_window() {
    let tree = DocumentTree::from_text("ab");
    let cursor = Cursor::new(tree.root());
    assert_eq!(cursor.depth(), 1);
    assert_eq!(cursor.level(), ZipperType::Window);
    assert_eq!(cursor.focus(), tree.root());
    assert!(cursor.left().is_empty());
    assert!(cursor.right().is_empty());
}

#[test]
fn sideways_at_the_window_finds_no_siblings() {
    let tree = DocumentTree::from_text("ab");
    let mut cursor = Cursor::new(tree.root());
    assert_eq!(cursor.move_left(), Err(MoveError::NoSiblings));
    assert_eq!(cursor.move_right(), Err(MoveError::NoSiblings));
    assert_eq!(cursor.depth(), 1);
    assert_eq!(cursor.focus(), tree.root());
}

#[test]
fn ascending_from_the_window_is_at_root() {
    let tree = DocumentTree::from_text("ab");
    let mut cursor = Cursor::new(tree.root());
    assert_eq!(cursor.move_parent(), Err(MoveError::AtRoot));
    assert_eq!(cursor.depth(), 1);
}

#[test]
fn descending_from_a_character_is_wrong_level() {
    let tree = DocumentTree::from_text("ab");
    let mut cursor = Cursor::new(tree.root());
    descend(&mut cursor, &tree, &[0, 0, 0, 1]);
    assert_eq!(cursor.level(), ZipperType::Character);
    assert_eq!(cursor.depth(), 5);
    let focus = cursor.focus();
    assert_eq!(cursor.move_child(&tree, 0), Err(MoveError::WrongLevel));
    assert_eq!(cursor.depth(), 5);
    assert_eq!(cursor.focus(), focus);
}

#[test]
fn the_document_has_no_siblings() {
    let tree = DocumentTree::from_text("ab\ncd");
    let mut cursor = Cursor::new(tree.root());
    descend(&mut cursor, &tree, &[0]);
    assert_eq!(cursor.level(), ZipperType::Document);
    assert_eq!(cursor.move_left(), Err(MoveError::NoSiblings));
    assert_eq!(cursor.move_right(), Err(MoveError::NoSiblings));
}

#[test]
fn descending_splits_the_children_around_the_focus() {
    let tree = DocumentTree::from_text("a\nb\nc\nd");
    let lines = tree.children(tree.document()).clone();
    let mut cursor = Cursor::new(tree.root());
    descend(&mut cursor, &tree, &[0, 2]);
    assert_eq!(cursor.level(), ZipperType::Line);
    assert_eq!(cursor.depth(), 3);
    assert_eq!(cursor.focus(), lines[2]);
    assert_eq!(cursor.left(), vec![lines[0], lines[1]]);
    assert_eq!(cursor.right(), vec![lines[3]]);
    assert_eq!(cursor.left_len(), 2);
    assert_eq!(cursor.right_len(), 1);
    assert_eq!(cursor.parent_focus(), tree.document());
    assert_eq!(cursor.focus_at(0), tree.root());
    assert_eq!(cursor.focus_at(1), tree.document());
    assert_eq!(cursor.left_len_at(2), 2);
    assert_eq!(cursor.right_len_at(2), 1);
    assert_eq!(cursor.left_node_at(2, 1), lines[1]);
}

#[test]
fn the_child_index_is_clamped_to_the_last_child() {
    let tree = DocumentTree::from_text("a\nb\nc");
    let lines = tree.children(tree.document()).clone();
    let mut cursor = Cursor::new(tree.root());
    descend(&mut cursor, &tree, &[0, 7]);
    assert_eq!(cursor.focus(), lines[2]);
    assert_eq!(cursor.left(), vec![lines[0], lines[1]]);
    assert!(cursor.right().is_empty());
    assert_eq!(cursor.move_parent(), Ok(()));
    descend(&mut cursor, &tree, &[usize::MAX]);
    assert_eq!(cursor.focus(), lines[2]);
}

#[test]
fn reconstruction_holds_at_every_level() {
    let tree = DocumentTree::from_text("ab cd ef\ngh");
    let mut cursor = Cursor::new(tree.root());
    let mut parent = tree.root();
    for index in [0usize, 0, 1, 1] {
        descend(&mut cursor, &tree, &[index]);
        let mut row = cursor.left();
        row.push(cursor.focus());
        row.extend(cursor.right());
        assert_eq!(&row, tree.children(parent));
        parent = cursor.focus();
    }
    assert_eq!(cursor.move_left(), Ok(()));
    let mut row = cursor.left();
    row.push(cursor.focus());
    row.extend(cursor.right());
    assert_eq!(&row, tree.children(cursor.parent_focus()));
}

#[test]
fn right_then_left_restores_focus_and_siblings() {
    let tree = DocumentTree::from_text("abcd");
    let mut cursor = Cursor::new(tree.root());
    descend(&mut cursor, &tree, &[0, 0, 0, 1]);
    let (focus, left, right) = (cursor.focus(), cursor.left(), cursor.right());
    assert_eq!(cursor.move_right(), Ok(()));
    assert_ne!(cursor.focus(), focus);
    assert_eq!(cursor.left().len(), 2);
    assert_eq!(cursor.move_left(), Ok(()));
    assert_eq!(cursor.focus(), focus);
    assert_eq!(cursor.left(), left);
    assert_eq!(cursor.right(), right);
}

#[test]
fn left_then_right_restores_focus_and_siblings() {
    let tree = DocumentTree::from_text("abcd");
    let mut cursor = Cursor::new(tree.root());
    descend(&mut cursor, &tree, &[0, 0, 0, 2]);
    let (focus, left, right) = (cursor.focus(), cursor.left(), cursor.right());
    assert_eq!(cursor.move_left(), Ok(()));
    assert_eq!(cursor.right().len(), 2);
    assert_eq!(cursor.right()[0], focus);
    assert_eq!(cursor.move_right(), Ok(()));
    assert_eq!(cursor.focus(), focus);
    assert_eq!(cursor.left(), left);
    assert_eq!(cursor.right(), right);
}

#[test]
fn sideways_at_the_edge_changes_nothing() {
    let tree = DocumentTree::from_text("ab");
    let chars = {
        let line = tree.children(tree.document())[0];
        tree.children(tree.children(line)[0]).clone()
    };
    let mut cursor = Cursor::new(tree.root());
    descend(&mut cursor, &tree, &[0, 0, 0, 0]);
    assert_eq!(cursor.move_left(), Err(MoveError::NoSiblings));
    assert_eq!(cursor.focus(), chars[0]);
    assert_eq!(cursor.right(), vec![chars[1]]);
    assert_eq!(cursor.move_right(), Ok(()));
    assert_eq!(cursor.move_right(), Err(MoveError::NoSiblings));
    assert_eq!(cursor.focus(), chars[1]);
    assert_eq!(cursor.left(), vec![chars[0]]);
}

#[test]
fn child_then_parent_restores_the_breadcrumb() {
    let tree = DocumentTree::from_text("a\nb\nc");
    let mut cursor = Cursor::new(tree.root());
    descend(&mut cursor, &tree, &[0, 1]);
    let (focus, left, right) = (cursor.focus(), cursor.left(), cursor.right());
    assert_eq!(cursor.move_child(&tree, 0), Ok(()));
    assert_eq!(cursor.level(), ZipperType::Span);
    assert_eq!(cursor.move_parent(), Ok(()));
    assert_eq!(cursor.depth(), 3);
    assert_eq!(cursor.focus(), focus);
    assert_eq!(cursor.left(), left);
    assert_eq!(cursor.right(), right);
}

#[test]
fn a_batch_is_followed_in_order_and_failures_are_dropped() {
    let tree = DocumentTree::from_text("a\nb\nc");
    let lines = tree.children(tree.document()).clone();
    let mut cursor = Cursor::new(tree.root());
    let batch = vec![
        MoveInstruction::Left,
        MoveInstruction::Child(0),
        MoveInstruction::Child(0),
        MoveInstruction::Left,
        MoveInstruction::Right,
        MoveInstruction::Right,
        MoveInstruction::Right,
        MoveInstruction::Left,
    ];
    let outcomes = move_zipper(&mut cursor, &tree, &batch);
    assert_eq!(
        outcomes,
        vec![
            Err(MoveError::NoSiblings),
            Ok(()),
            Ok(()),
            Err(MoveError::NoSiblings),
            Ok(()),
            Ok(()),
            Err(MoveError::NoSiblings),
            Ok(()),
        ]
    );
    assert_eq!(cursor.focus(), lines[1]);
    assert_eq!(cursor.left(), vec![lines[0]]);
    assert_eq!(cursor.right(), vec![lines[2]]);
}

#[test]
fn an_empty_batch_changes_nothing() {
    let tree = DocumentTree::from_text("a");
    let mut cursor = Cursor::new(tree.root());
    assert!(move_zipper(&mut cursor, &tree, &Vec::new()).is_empty());
    assert_eq!(cursor.depth(), 1);
    assert_eq!(move_transaction(&mut cursor, &tree, &Vec::new()), Ok(()));
    assert_eq!(cursor.depth(), 1);
}

#[test]
fn apply_follows_each_kind_of_instruction() {
    let tree = DocumentTree::from_text("a\nb");
    let lines = tree.children(tree.document()).clone();
    let mut cursor = Cursor::new(tree.root());
    assert_eq!(cursor.apply(&tree, MoveInstruction::Parent), Err(MoveError::AtRoot));
    assert_eq!(cursor.apply(&tree, MoveInstruction::Child(0)), Ok(()));
    assert_eq!(cursor.apply(&tree, MoveInstruction::Child(0)), Ok(()));
    assert_eq!(cursor.apply(&tree, MoveInstruction::Right), Ok(()));
    assert_eq!(cursor.focus(), lines[1]);
    assert_eq!(cursor.apply(&tree, MoveInstruction::Left), Ok(()));
    assert_eq!(cursor.focus(), lines[0]);
    assert_eq!(cursor.apply(&tree, MoveInstruction::Parent), Ok(()));
    assert_eq!(cursor.focus(), tree.document());
}

#[test]
fn a_gesture_that_succeeds_is_followed_whole() {
    let tree = DocumentTree::from_text("ab cd");
    let mut cursor = Cursor::new(tree.root());
    descend(&mut cursor, &tree, &[0, 0, 0, 2]);
    let gesture =
        vec![MoveInstruction::Parent, MoveInstruction::Right, MoveInstruction::Child(0)];
    assert_eq!(move_transaction(&mut cursor, &tree, &gesture), Ok(()));
    assert_eq!(tree.text(cursor.focus()), "c");
    assert!(cursor.left().is_empty());
    assert_eq!(cursor.right().len(), 1);
}

#[test]
fn a_gesture_that_fails_is_taken_back_whole() {
    let tree = DocumentTree::from_text("ab cd\nef");
    let mut cursor = Cursor::new(tree.root());
    descend(&mut cursor, &tree, &[0, 0, 1, 1]);
    let (focus, left, right) = (cursor.focus(), cursor.left(), cursor.right());
    let gesture = vec![
        MoveInstruction::Left,
        MoveInstruction::Parent,
        MoveInstruction::Left,
        MoveInstruction::Child(usize::MAX),
        MoveInstruction::Parent,
        MoveInstruction::Parent,
        MoveInstruction::Right,
        MoveInstruction::Child(0),
        MoveInstruction::Child(0),
        MoveInstruction::Child(0),
    ];
    assert_eq!(move_transaction(&mut cursor, &tree, &gesture), Err(MoveError::WrongLevel));
    assert_eq!(cursor.depth(), 5);
    assert_eq!(cursor.focus(), focus);
    assert_eq!(cursor.left(), left);
    assert_eq!(cursor.right(), right);
    assert_eq!(tree.text(cursor.focus()), "d");
    let span = cursor.parent_focus();
    let line = tree.children(tree.document())[0];
    assert_eq!(tree.children(line)[1], span);
}

#[test]
fn a_gesture_reports_the_first_failure() {
    let tree = DocumentTree::from_text("ab");
    let mut cursor = Cursor::new(tree.root());
    descend(&mut cursor, &tree, &[0, 0]);
    let gesture =
        vec![MoveInstruction::Child(0), MoveInstruction::Right, MoveInstruction::Parent];
    assert_eq!(move_transaction(&mut cursor, &tree, &gesture), Err(MoveError::NoSiblings));
    assert_eq!(cursor.level(), ZipperType::Line);
    assert_eq!(cursor.depth(), 3);
}

#[test]
fn child_type_descends_one_level() {
    assert_eq!(ZipperType::Window.child_type(), ZipperType::Document);
    assert_eq!(ZipperType::Document.child_type(), ZipperType::Line);
    assert_eq!(ZipperType::Line.child_type(), ZipperType::Span);
    assert_eq!(ZipperType::Span.child_type(), ZipperType::Character);
    assert_eq!(ZipperType::Character.child_type(), ZipperType::Character);
}
