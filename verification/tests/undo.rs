use karmx::tool_meta::{FAILURE_REASON, OVERFLOW_CONTENT, UNDO_ACTIONS};
use karmx::undo::{UndoAction, UndoActions, META_KEY};

#[test]
fn keys_are_namespaced_and_distinct() {
    let keys = [UNDO_ACTIONS, OVERFLOW_CONTENT, FAILURE_REASON];
    for k in keys {
        assert!(k.starts_with("goose."), "{k} should be namespaced");
    }
    let mut sorted = keys.to_vec();
    sorted.sort();
    sorted.dedup();
    assert_eq!(sorted.len(), keys.len(), "keys must be unique");
}

#[test]
fn undo_key_is_re_exported_not_duplicated() {
    assert_eq!(UNDO_ACTIONS, META_KEY);
}

#[test]
fn empty_means_nothing_to_undo() {
    let u = UndoActions::none();
    assert!(u.is_empty());
    assert!(!u.is_partially_irreversible());
}

#[test]
fn irreversible_is_distinct_from_empty() {
    let u = UndoActions::new(vec![UndoAction::irreversible("git push")]);
    assert!(!u.is_empty(), "a real action was recorded");
    assert!(u.is_partially_irreversible());
}

#[test]
fn conflicting_detects_changed_file() {
    let u = UndoActions::new(vec![UndoAction::restore("a.rs", Some("hash1".into()))]);
    assert!(u.conflicting(|_| Some("hash1".into())).is_empty());
    assert_eq!(u.conflicting(|_| Some("hash2".into())), vec!["a.rs"]);
    assert_eq!(u.conflicting(|_| None), vec!["a.rs"]);
}

#[test]
fn unguarded_restore_never_conflicts() {
    let u = UndoActions::new(vec![UndoAction::restore("a.rs", None)]);
    assert!(u.conflicting(|_| Some("whatever".into())).is_empty());
}

#[test]
fn path_accessor_is_absent_for_multi_path_actions() {
    assert_eq!(UndoAction::delete_created("a.rs").path(), Some("a.rs"));
    assert_eq!(
        UndoAction::DeleteCreatedDirs {
            dirs: vec!["a".into(), "b".into()]
        }
        .path(),
        None
    );
}

#[test]
fn collected_from_iterator() {
    let u: UndoActions = vec![
        UndoAction::delete_created("a"),
        UndoAction::delete_created("b"),
    ]
    .into_iter()
    .collect();
    assert_eq!(u.len(), 2);
}

#[test]
fn push_appends_and_iter_keeps_order() {
    let mut u = UndoActions::none();
    u.push(UndoAction::delete_created("x"));
    u.push(UndoAction::restore("y", None));
    assert_eq!(u.len(), 2);
    let paths: Vec<Option<&str>> = u.iter().map(|a| a.path()).collect();
    assert_eq!(paths, vec![Some("x"), Some("y")]);
}

#[test]
fn conflicts_are_reported_in_order_and_only_for_guarded_restores() {
    let u = UndoActions::new(vec![
        UndoAction::restore("a.rs", Some("h".into())),
        UndoAction::delete_created("b.rs"),
        UndoAction::restore("c.rs", Some("h".into())),
        UndoAction::irreversible("sent"),
    ]);
    assert_eq!(u.conflicting(|_| Some("other".into())), vec!["a.rs", "c.rs"]);
    assert!(u.is_partially_irreversible());
}

#[test]
fn recreate_file_has_a_single_path() {
    let a = UndoAction::RecreateFile {
        path: "gone.txt".into(),
        content: "body".into(),
        expected_post_hash: None,
    };
    assert_eq!(a.path(), Some("gone.txt"));
    assert_eq!(UndoAction::irreversible("x").path(), None);
}
