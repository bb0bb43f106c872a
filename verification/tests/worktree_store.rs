use vector_core::worktree_store::{search_candidate, search_match_path, search_results, MoveWorktreeError, SearchCandidate, WorktreeId, WorktreeStore};

fn ids(v: Vec<WorktreeId>) -> Vec<usize> {
    v.into_iter().map(|w| w.0).collect()
}

fn store_with(paths: &[(usize, &str, bool)], retain: bool) -> WorktreeStore {
    let mut store = WorktreeStore::local(retain);
    for (id, path, visible) in paths {
        store.add(WorktreeId(*id), path.to_string(), *visible);
    }
    store
}

#[test]
fn added_worktrees_are_kept_in_path_order() {
    let store = store_with(&[(1, "/c", true), (2, "/a", true), (3, "/b", true)], false);
    assert_eq!(ids(store.worktrees()), vec![2, 3, 1]);
    assert_eq!(store.worktree_for_id(WorktreeId(1)), Some(2));
    assert_eq!(store.worktree_for_id(WorktreeId(9)), None);
}

#[test]
fn reordered_store_appends() {
    let mut store = store_with(&[(1, "/c", true)], false);
    store.set_worktrees_reordered(true);
    store.add(WorktreeId(2), "/a".to_string(), true);
    assert_eq!(ids(store.worktrees()), vec![1, 2]);
}

#[test]
fn invisible_worktree_is_weak_and_released() {
    let mut store = store_with(&[(1, "/a", true), (2, "/b", false)], false);
    assert_eq!(ids(store.visible_worktrees()), vec![1]);
    assert_eq!(ids(store.worktrees()), vec![1, 2]);
    store.release_worktree(WorktreeId(2));
    assert_eq!(ids(store.worktrees()), vec![1]);
    // A strong handle is not released.
    store.release_worktree(WorktreeId(1));
    assert_eq!(ids(store.worktrees()), vec![1]);
}

#[test]
fn retained_worktrees_are_strong() {
    let mut store = store_with(&[(1, "/a", false)], true);
    store.release_worktree(WorktreeId(1));
    assert_eq!(ids(store.worktrees()), vec![1]);
    assert!(store.visible_worktrees().is_empty());
}

#[test]
fn find_worktree_strips_root() {
    let store = store_with(&[(1, "/home/u/proj", true), (2, "/home/u/other", true)], false);
    let (id, rest) = store.find_worktree("/home/u/proj/src/main.rs").unwrap();
    assert_eq!(id, WorktreeId(1));
    assert_eq!(rest, "src/main.rs");
    let (id, rest) = store.find_worktree("/home/u/other").unwrap();
    assert_eq!(id, WorktreeId(2));
    assert_eq!(rest, "");
    assert!(store.find_worktree("/home/u/projx/a").is_none());
}

#[test]
fn move_worktree_and_back() {
    let mut store = store_with(&[(1, "/a", true), (2, "/b", true), (3, "/c", true)], false);
    assert_eq!(store.move_worktree(WorktreeId(1), WorktreeId(3)), Ok(()));
    assert_eq!(ids(store.worktrees()), vec![2, 3, 1]);
    assert!(store.worktrees_reordered);
    assert_eq!(store.move_worktree(WorktreeId(1), WorktreeId(2)), Ok(()));
    assert_eq!(ids(store.worktrees()), vec![1, 2, 3]);
}

#[test]
fn move_worktree_to_itself_changes_nothing() {
    let mut store = store_with(&[(1, "/a", true), (2, "/b", true)], false);
    assert_eq!(store.move_worktree(WorktreeId(2), WorktreeId(2)), Ok(()));
    assert_eq!(ids(store.worktrees()), vec![1, 2]);
    assert!(!store.worktrees_reordered);
}

#[test]
fn move_worktree_reports_missing() {
    let mut store = store_with(&[(1, "/a", true), (2, "/b", true)], false);
    assert_eq!(store.move_worktree(WorktreeId(7), WorktreeId(2)), Err(MoveWorktreeError::MissingWorktree(WorktreeId(7))));
    assert_eq!(store.move_worktree(WorktreeId(1), WorktreeId(8)), Err(MoveWorktreeError::MissingWorktree(WorktreeId(8))));
    assert_eq!(ids(store.worktrees()), vec![1, 2]);
}

#[test]
fn remove_worktree_drops_it() {
    let mut store = store_with(&[(1, "/a", true), (2, "/b", true)], false);
    assert!(store.remove_worktree(WorktreeId(1)));
    assert_eq!(ids(store.worktrees()), vec![2]);
    assert!(!store.remove_worktree(WorktreeId(1)));
}

#[test]
fn search_candidates() {
    assert_eq!(search_candidate(true, true, false, false, false, false, false, false), SearchCandidate::ScanIgnoredDir);
    assert_eq!(search_candidate(true, true, true, false, false, false, false, false), SearchCandidate::Skip);
    assert_eq!(search_candidate(true, false, false, false, false, false, false, false), SearchCandidate::Skip);
    assert_eq!(search_candidate(false, false, false, true, true, false, false, false), SearchCandidate::Skip);
    assert_eq!(search_candidate(false, false, false, false, true, true, false, false), SearchCandidate::Skip);
    assert_eq!(search_candidate(false, false, false, false, true, true, true, true), SearchCandidate::OpenBuffer);
    assert_eq!(search_candidate(false, true, false, false, true, false, false, false), SearchCandidate::FilterContents);
    assert_eq!(search_match_path(true, "proj", "src/a.rs"), "proj/src/a.rs");
    assert_eq!(search_match_path(false, "proj", "src/a.rs"), "src/a.rs");
}

#[test]
fn search_stops_at_limit() {
    let found = vec![Some("a".to_string()), None, Some("b".to_string()), Some("c".to_string())];
    assert_eq!(search_results(&found, 2), vec!["a".to_string(), "b".to_string()]);
    assert_eq!(search_results(&found, 3), vec!["a".to_string(), "b".to_string(), "c".to_string()]);
    assert_eq!(search_results(&found, 10).len(), 3);
    assert_eq!(search_results(&found, 0).len(), 3);
    assert!(search_results(&vec![None, None], 1).is_empty());
}
