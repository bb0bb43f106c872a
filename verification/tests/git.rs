use vector_core::git::{checkpoint_comparisons, checkpoints_equal, git_workspace_registrations, GitWorkspaceRegistration, permalink_source, PermalinkSource};
use vector_core::diff_state::{
    diff_bases_after_reload, diff_bases_from_repository, normalize_line_endings, BufferGitState, DiffBasesChange,
    DiffKind, UncommittedUpdate,
};
use vector_core::git::{
    branch_rename_request, compute_snapshot, git_status_icon, permalink_remote_name, rename_branch_headline,
    rename_outcome, FileStatus, GitStatusIcon, MergeDetails, RepositoryChange, RepositoryEvent, RepositoryId,
    RepositoryRegistry, RepositorySnapshot, StatusCode, StatusEntry, UnmergedStatusCode, UpdatedGitRepository,
};
use vector_core::git_jobs::{GitJobKey, GitJobQueue};
use vector_core::git_status::{apply_status_edits, refresh_statuses, status_edits, StatusEdit};

fn s(x: &str) -> String {
    x.to_string()
}

fn modified() -> FileStatus {
    FileStatus::InIndex { index_status: StatusCode::Unmodified, worktree_status: StatusCode::Modified }
}

fn conflict() -> FileStatus {
    FileStatus::Unmerged { first_head: UnmergedStatusCode::Updated, second_head: UnmergedStatusCode::Updated }
}

fn entry(p: &str, st: FileStatus) -> StatusEntry {
    StatusEntry { repo_path: s(p), status: st }
}

#[test]
fn line_endings_are_normalized() {
    assert_eq!(normalize_line_endings("a\r\nb\rc\n"), "a\nb\nc\n");
    assert_eq!(normalize_line_endings("\r\r\n"), "\n\n");
    assert_eq!(normalize_line_endings("plain"), "plain");
    assert_eq!(normalize_line_endings(""), "");
}

#[test]
fn diff_bases_set_and_shared() {
    let mut st = BufferGitState::new();
    let (created, plan) = st.diff_opened(DiffKind::Uncommitted, diff_bases_from_repository(Some(s("x\r\n")), Some(s("x\r\n"))));
    assert!(created);
    assert!(st.has_unstaged_diff && st.has_uncommitted_diff);
    assert_eq!(st.index_text.as_deref(), Some("x\n"));
    assert_eq!(st.head_text.as_deref(), Some("x\n"));
    assert!(plan.update_unstaged);
    assert_eq!(plan.uncommitted, UncommittedUpdate::SameAsUnstaged);
    assert!(st.wait_for_recalculation());

    let plan = st.diff_bases_changed(Some(DiffBasesChange::SetIndex(Some(s("y")))));
    assert_eq!(plan.uncommitted, UncommittedUpdate::Recompute);
    assert_eq!(plan.index_text.as_deref(), Some("y"));
    assert!(plan.index_changed && plan.head_changed);
}

#[test]
fn recalculation_cancelled_by_staging() {
    let mut st = BufferGitState::new();
    let (_, plan) = st.diff_opened(DiffKind::Unstaged, DiffBasesChange::SetIndex(None));
    assert_eq!(plan.uncommitted, UncommittedUpdate::Skip);
    let n = st.hunks_staged_or_unstaged();
    assert_eq!(n, 1);
    assert!(!st.recalculation_may_apply(plan.staging_count_at_start));
    assert!(!st.recalculating);
    st.index_text_written(n);
    let plan = st.recalculate_diffs();
    assert_eq!(plan.staging_count_at_start, 1);
    assert!(st.recalculation_may_apply(plan.staging_count_at_start));
    st.recalculation_applied();
    assert!(!st.recalculating && !st.index_changed && !st.head_changed && !st.language_changed);
    let plan = st.buffer_language_changed();
    assert!(plan.language_changed);
}

#[test]
fn reload_finds_changed_bases() {
    let same = diff_bases_after_reload(Some(Some(s("a"))), Some(Some(s("b"))), Some(s("a")), Some(s("b")));
    assert!(same.is_none());
    match diff_bases_after_reload(Some(Some(s("a"))), Some(Some(s("b"))), Some(s("c")), Some(s("c"))) {
        Some(DiffBasesChange::SetBoth(Some(t))) => assert_eq!(t, "c"),
        other => panic!("unexpected {:?}", other),
    }
    match diff_bases_after_reload(Some(Some(s("a"))), Some(Some(s("b"))), Some(s("c")), Some(s("d"))) {
        Some(DiffBasesChange::SetEach { index: Some(i), head: Some(h) }) => assert_eq!((i, h), (s("c"), s("d"))),
        other => panic!("unexpected {:?}", other),
    }
    match diff_bases_after_reload(Some(None), None, Some(s("n")), None) {
        Some(DiffBasesChange::SetIndex(Some(t))) => assert_eq!(t, "n"),
        other => panic!("unexpected {:?}", other),
    }
    match diff_bases_after_reload(None, Some(Some(s("h"))), None, None) {
        Some(DiffBasesChange::SetHead(None)) => {},
        other => panic!("unexpected {:?}", other),
    }
    assert!(diff_bases_after_reload(None, None, Some(s("x")), Some(s("y"))).is_none());
    match diff_bases_from_repository(Some(s("h")), Some(s("i"))) {
        DiffBasesChange::SetEach { index, head } => assert_eq!((index, head), (Some(s("i")), Some(s("h")))),
        other => panic!("unexpected {:?}", other),
    }
}

#[test]
fn reload_request_reads_open_diffs() {
    let mut st = BufferGitState::new();
    assert_eq!(st.reload_request(), (None, None));
    st.diff_opened(DiffKind::Unstaged, DiffBasesChange::SetIndex(Some(s("i"))));
    assert_eq!(st.reload_request(), (Some(Some(s("i"))), None));
}

#[test]
fn superseded_jobs_are_dropped() {
    let mut q: GitJobQueue<u32> = GitJobQueue::new();
    q.push(Some(GitJobKey::RefreshStatuses), 1);
    q.push(None, 2);
    q.push(Some(GitJobKey::WriteIndex(s("a.rs"))), 3);
    q.push(Some(GitJobKey::RefreshStatuses), 4);
    q.push(Some(GitJobKey::WriteIndex(s("b.rs"))), 5);
    assert_eq!(q.next_job(), Some(2));
    assert_eq!(q.next_job(), Some(3));
    assert_eq!(q.next_job(), Some(4));
    assert_eq!(q.next_job(), Some(5));
    assert_eq!(q.next_job(), None);
}

#[test]
fn last_job_of_a_key_runs() {
    let mut q: GitJobQueue<&str> = GitJobQueue::new();
    q.push(Some(GitJobKey::ReloadGitState), "first");
    q.push(Some(GitJobKey::ReloadGitState), "second");
    assert_eq!(q.next_job(), Some("second"));
    assert!(q.jobs.is_empty());
}

#[test]
fn status_refresh_edits() {
    let mut snap = RepositorySnapshot::empty(RepositoryId(1), s("/repo"));
    snap.statuses_by_path = vec![entry("a", modified()), entry("b", modified()), entry("c", FileStatus::Untracked)];
    let asked = vec![s("a"), s("b"), s("c"), s("d")];
    let read = vec![entry("a", modified()), entry("c", conflict()), entry("e", FileStatus::Untracked)];
    let edits = status_edits(&snap, &asked, &read);
    assert_eq!(edits.len(), 3);
    assert!(matches!(&edits[0], StatusEdit::Insert(e) if e.repo_path == "c"));
    assert!(matches!(&edits[1], StatusEdit::Insert(e) if e.repo_path == "e"));
    assert!(matches!(&edits[2], StatusEdit::Remove(p) if p == "b"));
    let event = refresh_statuses(&mut snap, &asked, &read);
    assert_eq!(event, RepositoryEvent::Updated { full_scan: false });
    assert_eq!(snap.scan_id, 1);
    assert_eq!(snap.status_for_path("a"), Some(modified()));
    assert_eq!(snap.status_for_path("b"), None);
    assert_eq!(snap.status_for_path("c"), Some(conflict()));
    assert_eq!(snap.status_for_path("e"), Some(FileStatus::Untracked));
    assert!(snap.has_conflict("c"));
    let again = refresh_statuses(&mut snap, &asked, &read);
    assert_eq!(again, RepositoryEvent::Updated { full_scan: false });
    assert_eq!(snap.scan_id, 1);
}

#[test]
fn edits_apply_in_order() {
    let mut statuses = vec![entry("x", modified())];
    apply_status_edits(
        &mut statuses,
        &vec![StatusEdit::Insert(entry("y", modified())), StatusEdit::Remove(s("x")), StatusEdit::Insert(entry("y", conflict()))],
    );
    assert_eq!(statuses.len(), 1);
    assert_eq!(statuses[0].repo_path, "y");
    assert_eq!(statuses[0].status, conflict());
}

#[test]
fn scans_report_changes() {
    let prev = RepositorySnapshot::empty(RepositoryId(7), s("/r"));
    let (snap, events) = compute_snapshot(&prev, vec![entry("f", conflict())], false, Some(s("Merge")), vec![Some(s("abc"))]);
    assert_eq!(snap.scan_id, 1);
    assert_eq!(snap.id, RepositoryId(7));
    assert_eq!(events, vec![RepositoryEvent::Updated { full_scan: true }, RepositoryEvent::MergeHeadsChanged]);
    assert_eq!(snap.merge.conflicted_paths, vec![s("f")]);
    assert!(snap.had_conflict_on_last_merge_head_change("f"));
    let (snap2, events) = compute_snapshot(&snap, vec![entry("f", conflict())], false, Some(s("Merge")), vec![Some(s("abc"))]);
    assert!(events.is_empty());
    assert_eq!(snap2.scan_id, 2);
    let d = MergeDetails::default();
    assert!(d.conflicted_paths.is_empty() && d.message.is_none() && d.heads.is_empty());
}

#[test]
fn repository_paths() {
    let snap = RepositorySnapshot::empty(RepositoryId(1), s("/home/u/repo"));
    assert_eq!(snap.abs_path_to_repo_path("/home/u/repo/src/a.rs"), Some(s("src/a.rs")));
    assert_eq!(snap.abs_path_to_repo_path("/elsewhere"), None);
    assert_eq!(snap.display_name(), "repo");
}

fn update(old: Option<&str>, new: Option<&str>) -> UpdatedGitRepository {
    let dot = new.map(|n| format!("{n}/.git"));
    UpdatedGitRepository {
        old_work_directory_abs_path: old.map(s),
        new_work_directory_abs_path: new.map(s),
        dot_git_abs_path: dot.clone(),
        repository_dir_abs_path: dot.clone(),
        common_dir_abs_path: dot,
    }
}

#[test]
fn registry_follows_worktree() {
    let mut reg = RepositoryRegistry::new();
    let (changes, _events) = reg.update_repositories_from_worktree(vec![update(None, Some("/a")), update(None, Some("/b"))]);
    assert_eq!(changes.len(), 2);
    assert!(matches!(&changes[0], RepositoryChange::Open { id: RepositoryId(1), .. }));
    assert_eq!(reg.active_repo_id, Some(RepositoryId(1)));
    assert_eq!(reg.repositories.len(), 2);
    let (changes, _events) = reg.update_repositories_from_worktree(vec![update(Some("/b"), Some("/c")), update(Some("/a"), None)]);
    assert!(matches!(&changes[0], RepositoryChange::Rescan { id: RepositoryId(2), work_directory_abs_path } if work_directory_abs_path == "/c"));
    assert!(matches!(&changes[1], RepositoryChange::Close { id: RepositoryId(1) }));
    assert_eq!(reg.active_repo_id, None);
    assert_eq!(reg.repositories.len(), 1);
    assert_eq!(reg.repositories[0].1, "/c");
}

#[test]
fn small_git_decisions() {
    assert_eq!(permalink_remote_name(Some(s("upstream"))), "upstream");
    assert_eq!(permalink_remote_name(None), "origin");
    assert_eq!(git_status_icon(true, true, true), GitStatusIcon::Warning);
    assert_eq!(git_status_icon(false, true, true), GitStatusIcon::SquareMinus);
    assert_eq!(git_status_icon(false, false, true), GitStatusIcon::SquareDot);
    assert_eq!(git_status_icon(false, false, false), GitStatusIcon::SquarePlus);
    assert!(conflict().is_conflicted());
    assert!(!modified().is_conflicted());
    assert_eq!(branch_rename_request("main", "trunk"), Some((s("main"), s("trunk"))));
    assert_eq!(branch_rename_request("main", "main"), None);
    assert_eq!(branch_rename_request("main", ""), None);
    assert_eq!(rename_branch_headline("dev"), "Rename Branch (dev)");
    assert_eq!(rename_outcome(Some(Ok(()))), Ok(()));
    assert_eq!(rename_outcome(Some(Err(s("no")))), Err(s("no")));
    assert_eq!(rename_outcome(None), Err(s("Operation was canceled")));
}

#[test]
fn normalizing_twice_changes_nothing() {
    for text in ["a\r\n\r\rb", "\r", "x\ny"] {
        let once = normalize_line_endings(text);
        assert!(!once.contains('\r'));
        assert_eq!(normalize_line_endings(&once), once);
    }
}

#[test]
fn active_and_containing_repository() {
    let mut reg = RepositoryRegistry::new();
    reg.update_repositories_from_worktree(vec![update(None, Some("/w")), update(None, Some("/w/sub"))]);
    assert_eq!(reg.active_repository(), Some((RepositoryId(1), s("/w"))));
    assert!(reg.set_as_active_repository(RepositoryId(9)).is_none());
    assert!(matches!(
        reg.set_as_active_repository(RepositoryId(2)),
        Some(vector_core::git::GitStoreEvent::ActiveRepositoryChanged(Some(RepositoryId(2))))
    ));
    assert_eq!(reg.active_repository(), Some((RepositoryId(2), s("/w/sub"))));
    assert_eq!(reg.repository_and_path_for_abs_path("/w/sub/a.rs"), Some((RepositoryId(2), s("a.rs"))));
    assert_eq!(reg.repository_and_path_for_abs_path("/w/b.rs"), Some((RepositoryId(1), s("b.rs"))));
    assert_eq!(reg.repository_and_path_for_abs_path("/x"), None);
}

#[test]
fn permalink_sources() {
    assert!(matches!(permalink_source(true, None, false, false), PermalinkSource::Repository { remote } if remote == "origin"));
    assert!(matches!(permalink_source(true, Some(s("up")), true, true), PermalinkSource::Repository { remote } if remote == "up"));
    assert!(matches!(permalink_source(false, None, true, true), PermalinkSource::CargoRegistry));
    assert!(matches!(permalink_source(false, None, true, false), PermalinkSource::Unavailable));
    assert!(matches!(permalink_source(false, None, false, true), PermalinkSource::Unavailable));
}

#[test]
fn changed_paths_grouped_by_repository() {
    let mut reg = RepositoryRegistry::new();
    reg.update_repositories_from_worktree(vec![update(None, Some("/w")), update(None, Some("/w/sub"))]);
    let groups = reg.paths_by_repository(&vec![s("/w/sub/a"), s("/w/b"), s("/x"), s("/w/sub/c")]);
    assert_eq!(groups, vec![(RepositoryId(2), vec![s("a"), s("c")]), (RepositoryId(1), vec![s("b")])]);
    assert_eq!(reg.repositories_to_reload(&vec![update(Some("/w/sub"), Some("/w/sub"))]), vec![RepositoryId(2)]);
    assert_eq!(reg.repositories_to_reload(&vec![update(None, Some("/w")), update(Some("/w/sub"), None)]), vec![RepositoryId(1), RepositoryId(2)]);
    assert!(reg.repositories_to_reload(&vec![update(None, Some("/y"))]).is_empty());
}

#[test]
fn active_repository_stays_registered() {
    let mut reg = RepositoryRegistry::new();
    reg.update_repositories_from_worktree(vec![update(None, Some("/a")), update(None, Some("/b"))]);
    reg.set_as_active_repository(RepositoryId(2));
    let (_changes, events) = reg.update_repositories_from_worktree(vec![update(Some("/b"), None)]);
    assert_eq!(reg.active_repo_id, None);
    assert!(matches!(events.last(), Some(vector_core::git::GitStoreEvent::ActiveRepositoryChanged(None))));
    let (_changes, events) = reg.update_repositories_from_worktree(vec![update(None, Some("/c"))]);
    assert_eq!(reg.active_repo_id, Some(RepositoryId(3)));
    assert!(reg.repositories.iter().any(|(id, _)| *id == RepositoryId(3)));
    assert!(matches!(events.last(), Some(vector_core::git::GitStoreEvent::ActiveRepositoryChanged(Some(RepositoryId(3))))));
}

#[test]
fn checkpoint_comparison_plan() {
    let left = vec![s("/a"), s("/b"), s("/c")];
    let right = vec![s("/c"), s("/b"), s("/a")];
    let repos = vec![s("/a"), s("/c")];
    assert_eq!(checkpoint_comparisons(&left, &right, &repos), Some(vec![(0, 2), (2, 0)]));
    assert_eq!(checkpoint_comparisons(&left, &vec![s("/a"), s("/b")], &repos), None);
    assert_eq!(checkpoint_comparisons(&vec![], &vec![], &repos), Some(vec![]));
    assert_eq!(checkpoint_comparisons(&vec![], &right, &repos), None);
    let both = vec![s("/a"), s("/b")];
    assert_eq!(checkpoint_comparisons(&vec![s("/a")], &both, &both), None);
    assert!(!checkpoints_equal(checkpoint_comparisons(&vec![s("/a")], &both, &both).map(|p| vec![true; p.len()])));
    assert!(checkpoints_equal(Some(vec![true, true])));
    assert!(checkpoints_equal(Some(vec![])));
    assert!(!checkpoints_equal(Some(vec![true, false])));
    assert!(!checkpoints_equal(None));
}

#[test]
fn read_only_projects_get_no_write_actions() {
    let read_only = git_workspace_registrations(true);
    assert_eq!(read_only.len(), 6);
    assert_eq!(read_only[0], GitWorkspaceRegistration::ProjectDiff);
    assert!(!read_only.contains(&GitWorkspaceRegistration::StageAll));
    let full = git_workspace_registrations(false);
    assert_eq!(full.len(), 20);
    assert_eq!(&full[..6], &read_only[..]);
    assert_eq!(full[6], GitWorkspaceRegistration::StashAll);
    assert_eq!(full[19], GitWorkspaceRegistration::FileHistory);
}
