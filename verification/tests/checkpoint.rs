use claux::checkpoint::{
    check_path, git_paths, split_bytes, FileState, PathKind, PendingCheckpoint, Snapshot,
    TurnCheckpoint, UndoStart, MAX_FILE_BYTES, MAX_TOTAL_BYTES,
};
use claux::path_map::PathMap;
use claux::permissions::{PermissionChecker, PermissionMode};
use claux::query::Engine;

fn file(contents: &str) -> FileState {
    FileState::File { contents: contents.as_bytes().to_vec(), readonly: false, mode: Some(0o644) }
}

fn states(files: &[(&str, &str)]) -> PathMap<FileState> {
    let mut snapshot = Snapshot::new();
    for (path, contents) in files {
        snapshot = match snapshot.add_path(path.as_bytes().to_vec(), file(contents)) {
            Ok(snapshot) => snapshot,
            Err(error) => panic!("{error}"),
        };
    }
    snapshot.finish()
}

fn turn(before: &[(&str, &str)], after: &[(&str, &str)]) -> TurnCheckpoint {
    PendingCheckpoint::new("/repo".to_string(), states(before)).finish(states(after))
}

fn now(checkpoint: &TurnCheckpoint, files: &[(&str, &str)]) -> Vec<FileState> {
    let states = states(files);
    (0..checkpoint.len())
        .map(|i| match states.get(checkpoint.path_at(i)) {
            Some(state) => state.duplicate(),
            None => FileState::Missing,
        })
        .collect()
}

#[test]
fn the_diff_and_the_earlier_states_are_known() {
    let after = [("existing.txt", "after\n"), ("created.txt", "new\n")];
    let checkpoint = turn(&[("existing.txt", "before\n")], &after);

    let diff = checkpoint.diff();
    assert!(diff.contains("-before"));
    assert!(diff.contains("+after"));
    assert!(diff.contains("created.txt"));
    assert!(matches!(checkpoint.undo(&now(&checkpoint, &after)), Ok(UndoStart::Restore)));
    assert!(checkpoint.undone().contains("2 file(s)"));
    assert_eq!(checkpoint.path_at(0), b"created.txt");
    assert!(matches!(checkpoint.before_at(0), FileState::Missing));
    assert_eq!(checkpoint.path_at(1), b"existing.txt");
    assert!(checkpoint.before_at(1).same(&file("before\n")));
}

#[test]
fn undo_refuses_to_overwrite_later_edits() {
    let checkpoint = turn(&[("file.txt", "before")], &[("file.txt", "agent")]);

    let error = checkpoint.undo(&now(&checkpoint, &[("file.txt", "human")])).err().unwrap();
    assert!(error.contains("Undo refused"));
    assert!(error.contains("file.txt"));
}

#[test]
fn undo_rechecks_a_file_immediately_before_restoring_it() {
    let checkpoint = turn(&[("file.txt", "before")], &[("file.txt", "agent")]);

    let error = checkpoint.recheck(0, &file("human during undo")).unwrap_err();
    assert!(error.contains("changed while undo was in progress"));
    assert!(checkpoint.recheck(0, &file("agent")).is_ok());
}

#[test]
fn an_unchanged_worktree_has_nothing_to_undo() {
    let checkpoint = turn(&[(".gitignore", "secret.txt\n")], &[(".gitignore", "secret.txt\n")]);

    assert_eq!(checkpoint.diff(), "The last turn made no checkpointed file changes.");
    assert!(matches!(
        checkpoint.undo(&vec![]),
        Ok(UndoStart::Nothing(m)) if m == "The last turn made no checkpointed file changes."
    ));
}

#[test]
fn the_engine_keeps_the_checkpoint_of_the_last_turn() {
    let mut engine = Engine::new(PermissionChecker::new(PermissionMode::Default), "test");
    engine.begin_checkpoint(Some(PendingCheckpoint::new(
        "/repo".to_string(),
        states(&[("a", "1\n")]),
    )));
    assert_eq!(engine.pending_checkpoint().unwrap().root(), "/repo");
    engine.finish_checkpoint(Some(states(&[("a", "2\n")])));
    assert!(engine.pending_checkpoint().is_none());
    assert!(engine.last_turn_diff().contains("+2"));
    assert!(matches!(engine.undo_last_turn(&vec![file("2\n")]), Ok(UndoStart::Restore)));
    engine.note_undo();
    assert!(engine.last_checkpoint().is_none());
    assert_eq!(engine.message_count(), 1);
}

#[test]
fn git_lists_paths_between_zero_bytes() {
    let paths = git_paths(b"b\0a/c\0b\0").ok().unwrap();
    assert_eq!(paths.len(), 2);
    assert_eq!(paths.path_at(0), b"a/c");
    assert_eq!(paths.path_at(1), b"b");
    assert_eq!(split_bytes(b"x,y", b','), [b"x".to_vec(), b"y".to_vec()]);
    let pending = PendingCheckpoint::new("/r".to_string(), states(&[("gone", "x")]));
    assert_eq!(pending.paths_to_check(&paths).len(), 3);
}

#[test]
fn large_and_unusual_files_are_refused() {
    assert!(check_path("a", PathKind::Regular(MAX_FILE_BYTES)).is_ok());
    assert!(check_path("a", PathKind::Regular(MAX_FILE_BYTES + 1)).is_err());
    assert!(check_path("a", PathKind::Symlink).is_ok());
    assert!(check_path("a", PathKind::Other).is_err());
}

#[test]
fn a_snapshot_holds_only_so_much() {
    let big = vec![0u8; 4_194_304];
    let mut snapshot = Snapshot::new();
    for i in 0..(MAX_TOTAL_BYTES / 4_194_304) {
        let state = FileState::File { contents: big.clone(), readonly: false, mode: None };
        snapshot = match snapshot.add_path(format!("f{i}").into_bytes(), state) {
            Ok(snapshot) => snapshot,
            Err(error) => panic!("{error}"),
        };
    }
    assert!(snapshot.add_path(b"more".to_vec(), file("x")).is_err());
}

#[test]
fn links_are_compared_by_where_they_lead() {
    let one = FileState::Symlink(b"a".to_vec());
    assert!(one.same(&FileState::Symlink(b"a".to_vec())));
    assert!(!one.same(&FileState::Symlink(b"b".to_vec())));
    assert!(!one.same(&file("a")));
}

#[test]
fn undoing_a_turn_brings_back_what_stood_before_it() {
    let before = [("changed.txt", "1"), ("deleted.txt", "2"), ("kept.txt", "3")];
    let after = [("changed.txt", "1+"), ("created.txt", "4"), ("kept.txt", "3")];
    let checkpoint = turn(&before, &after);
    assert!(matches!(checkpoint.undo(&now(&checkpoint, &after)), Ok(UndoStart::Restore)));

    let mut worktree: Vec<(Vec<u8>, FileState)> = after
        .iter()
        .map(|(path, contents)| (path.as_bytes().to_vec(), file(contents)))
        .collect();
    for i in 0..checkpoint.len() {
        worktree.retain(|entry| &entry.0 != checkpoint.path_at(i));
        worktree.push((checkpoint.path_at(i).clone(), checkpoint.before_at(i).duplicate()));
    }
    worktree.retain(|entry| !matches!(entry.1, FileState::Missing));
    assert_eq!(worktree.len(), before.len());
    for (path, contents) in before {
        let found = worktree.iter().find(|entry| entry.0 == path.as_bytes()).unwrap();
        assert!(found.1.same(&file(contents)));
    }
    assert_eq!(checkpoint.undone(), "Undid the last turn's changes to 3 file(s).");
}
