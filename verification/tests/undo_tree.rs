use editor_core::undo::UndoTree;

#[test]
fn initial_state_is_root_snapshot() {
    let t = UndoTree::new("hello");
    assert_eq!(t.current_state(), "hello");
}

#[test]
fn commit_shows_committed_value() {
    let mut t = UndoTree::new("");
    t.commit(String::from("one"));
    assert_eq!(t.current_state(), "one");
    t.commit(String::from("two"));
    assert_eq!(t.current_state(), "two");
    t.commit(String::from("three"));
    assert_eq!(t.current_state(), "three");
}

#[test]
fn undo_at_root_is_a_no_op() {
    let mut t = UndoTree::new("root");
    assert!(!t.undo());
    assert_eq!(t.current_state(), "root");
    assert!(!t.undo());
    assert!(!t.undo());
    assert_eq!(t.current_state(), "root");
}

#[test]
fn undo_moves_to_parent() {
    let mut t = UndoTree::new("root");
    t.commit(String::from("a"));
    t.commit(String::from("b"));
    assert!(t.undo());
    assert_eq!(t.current_state(), "a");
    assert!(t.undo());
    assert_eq!(t.current_state(), "root");
    assert!(!t.undo());
}

#[test]
fn redo_at_leaf_is_a_no_op() {
    let mut t = UndoTree::new("root");
    assert!(!t.redo());
    assert_eq!(t.current_state(), "root");
    t.commit(String::from("a"));
    assert!(!t.redo());
    assert_eq!(t.current_state(), "a");
}

#[test]
fn redo_follows_last_created_branch() {
    let mut t = UndoTree::new("root");
    t.commit(String::from("A"));
    assert!(t.undo());
    t.commit(String::from("B"));
    assert!(t.undo());
    assert!(t.redo());
    assert_eq!(t.current_state(), "B");
}

#[test]
fn commit_undo_redo_round_trip() {
    let mut t = UndoTree::new("start");
    t.commit(String::from("S"));
    assert!(t.undo());
    assert_eq!(t.current_state(), "start");
    assert!(t.redo());
    assert_eq!(t.current_state(), "S");
}

#[test]
fn older_branch_stays_reachable_after_new_branch() {
    let mut t = UndoTree::new("root");
    t.commit(String::from("A"));
    t.commit(String::from("A2"));
    assert!(t.undo());
    assert!(t.undo());
    assert_eq!(t.current_state(), "root");
    t.commit(String::from("B"));
    assert_eq!(t.current_state(), "B");
    assert!(t.undo());
    assert!(t.redo());
    assert_eq!(t.current_state(), "B");
}
