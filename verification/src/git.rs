//! The git store's bookkeeping: repository snapshots and their merge
//! conflicts, the events a rescan reports, the registry of repositories that
//! follows the worktrees, and the small decisions of the git panel.
use vstd::prelude::*;
use crate::text::{
    chars_concat, chars_of, opt_strings_equal, opt_view, owned, str_eq, string_of, strings_contain, strings_view,
    texts_contain,
};
use crate::worktree_store::{path_less, path_order_less, path_strip_prefix, strip_path_prefix};

verus! {

/// The identity of a repository in the git store.
#[derive(Debug, Clone, Copy, PartialEq, Eq, Hash, Structural)]
pub struct RepositoryId(pub u64);

/// What changed in a repository after a scan.
#[derive(Debug, Clone, Copy, PartialEq, Eq, Structural)]
pub enum RepositoryEvent {
    Updated { full_scan: bool },
    MergeHeadsChanged,
}

/// A repository's running jobs changed.
#[derive(Debug, Clone, Copy, PartialEq, Eq, Structural)]
pub struct JobsUpdated;

/// What the git store reports.
#[derive(Debug)]
pub enum GitStoreEvent {
    ActiveRepositoryChanged(Option<RepositoryId>),
    RepositoryUpdated(RepositoryId, RepositoryEvent, bool),
    RepositoryAdded(RepositoryId),
    RepositoryRemoved(RepositoryId),
    IndexWriteError(String),
    JobsUpdated,
    ConflictsUpdated,
}

/// The state of a file in the index or the worktree.
#[derive(Debug, Clone, Copy, PartialEq, Eq, Structural)]
pub enum StatusCode {
    Modified,
    TypeChanged,
    Added,
    Deleted,
    Renamed,
    Copied,
    Unmodified,
}

/// How one side of a merge left a conflicted file.
#[derive(Debug, Clone, Copy, PartialEq, Eq, Structural)]
pub enum UnmergedStatusCode {
    Added,
    Deleted,
    Updated,
}

/// The git status of a file: untracked, ignored, unmerged (with how each
/// side left it), or tracked in the index (with its index and worktree state).
#[derive(Debug, Clone, Copy, PartialEq, Eq, Structural)]
pub enum FileStatus {
    Untracked,
    Ignored,
    Unmerged { first_head: UnmergedStatusCode, second_head: UnmergedStatusCode },
    InIndex { index_status: StatusCode, worktree_status: StatusCode },
}

impl FileStatus {
    /// Whether the file is in conflict: it is unmerged.
    pub fn is_conflicted(self) -> (r: bool)
        ensures
            r == (self is Unmerged),
    {
        matches!(self, FileStatus::Unmerged { .. })
    }
}

/// A file's status, by its path in the repository.
#[derive(Debug)]
pub struct StatusEntry {
    pub repo_path: String,
    pub status: FileStatus,
}

/// The statuses as plain values.
pub open spec fn statuses_view(s: Seq<StatusEntry>) -> Seq<(Seq<char>, FileStatus)> {
    s.map_values(|e: StatusEntry| (e.repo_path@, e.status))
}

/// What a merge in progress left behind: the files that were in conflict
/// when the merge heads last changed, the merge message, and the heads.
#[derive(Debug)]
pub struct MergeDetails {
    pub conflicted_paths: Vec<String>,
    pub message: Option<String>,
    pub heads: Vec<Option<String>>,
}

/// The heads as plain values.
pub open spec fn heads_view(h: Seq<Option<String>>) -> Seq<Option<Seq<char>>> {
    h.map_values(|o: Option<String>| opt_view(o))
}

/// The merge details as plain values.
pub open spec fn merge_view(m: MergeDetails) -> (Seq<Seq<char>>, Option<Seq<char>>, Seq<Option<Seq<char>>>) {
    (strings_view(m.conflicted_paths@), opt_view(m.message), heads_view(m.heads@))
}

/// The paths of the conflicted entries, in order.
pub open spec fn conflicted_paths_of(s: Seq<(Seq<char>, FileStatus)>) -> Seq<Seq<char>>
    decreases s.len(),
{
    if s.len() == 0 {
        Seq::empty()
    } else {
        conflicted_paths_of(s.drop_last()) + if s.last().1 is Unmerged {
            seq![s.last().0]
        } else {
            Seq::empty()
        }
    }
}

/// Whether some head is set.
pub open spec fn any_head(h: Seq<Option<Seq<char>>>) -> bool {
    exists|i: int| 0 <= i < h.len() && (#[trigger] h[i]) is Some
}

/// The merge details after a scan, and whether the merge heads changed.
/// Where the heads are as before, the conflicted paths stay. Where they
/// changed, the conflicted paths become those in conflict now; but where a
/// merge has just begun and no conflict shows yet, the old details stay
/// (with the new message) and no change is reported.
pub open spec fn merge_after_scan(
    statuses: Seq<(Seq<char>, FileStatus)>,
    prev: (Seq<Seq<char>>, Option<Seq<char>>, Seq<Option<Seq<char>>>),
    message: Option<Seq<char>>,
    heads: Seq<Option<Seq<char>>>,
) -> ((Seq<Seq<char>>, Option<Seq<char>>, Seq<Option<Seq<char>>>), bool) {
    let changed = heads != prev.2;
    if changed {
        let current = conflicted_paths_of(statuses);
        if any_head(heads) && !any_head(prev.2) && current.len() == 0 {
            ((prev.0, message, prev.2), false)
        } else {
            ((current, message, heads), true)
        }
    } else {
        ((prev.0, message, heads), false)
    }
}

/// Whether a status entry is unmerged.
pub open spec fn entry_unmerged(e: (Seq<char>, FileStatus)) -> bool {
    e.1 is Unmerged
}

proof fn lemma_conflicted_paths_are_unmerged_entries(s: Seq<(Seq<char>, FileStatus)>)
    ensures
        conflicted_paths_of(s) == s.filter(|e: (Seq<char>, FileStatus)| entry_unmerged(e)).map_values(
            |e: (Seq<char>, FileStatus)| e.0,
        ),
        conflicted_paths_of(s).len() == 0 <==> forall|i: int| 0 <= i < s.len() ==> (#[trigger] s[i]).1 !is Unmerged,
    decreases s.len(),
{
    reveal(Seq::filter);
    let pred = |e: (Seq<char>, FileStatus)| entry_unmerged(e);
    if s.len() == 0 {
        assert(s.filter(pred) =~= Seq::<(Seq<char>, FileStatus)>::empty());
        assert(s.filter(pred).map_values(|e: (Seq<char>, FileStatus)| e.0) =~= Seq::<Seq<char>>::empty());
    } else {
        let d = s.drop_last();
        lemma_conflicted_paths_are_unmerged_entries(d);
        assert(s.filter(pred) == if pred(s.last()) { d.filter(pred).push(s.last()) } else { d.filter(pred) });
        if s.last().1 is Unmerged {
            assert(s.filter(pred).map_values(|e: (Seq<char>, FileStatus)| e.0) =~= d.filter(pred).map_values(
                |e: (Seq<char>, FileStatus)| e.0,
            ).push(s.last().0));
            assert(conflicted_paths_of(s) =~= conflicted_paths_of(d).push(s.last().0));
            assert(!(forall|i: int| 0 <= i < s.len() ==> (#[trigger] s[i]).1 !is Unmerged)) by {
                assert(s[s.len() - 1] == s.last());
            }
        } else {
            assert(conflicted_paths_of(s) =~= conflicted_paths_of(d));
            assert((forall|i: int| 0 <= i < s.len() ==> (#[trigger] s[i]).1 !is Unmerged) <==> (forall|i: int|
                0 <= i < d.len() ==> (#[trigger] d[i]).1 !is Unmerged)) by {
                if forall|i: int| 0 <= i < d.len() ==> (#[trigger] d[i]).1 !is Unmerged {
                    assert forall|i: int| 0 <= i < s.len() implies (#[trigger] s[i]).1 !is Unmerged by {
                        if i < d.len() {
                            assert(s[i] == d[i]);
                        }
                    }
                }
                if forall|i: int| 0 <= i < s.len() ==> (#[trigger] s[i]).1 !is Unmerged {
                    assert forall|i: int| 0 <= i < d.len() implies (#[trigger] d[i]).1 !is Unmerged by {
                        assert(s[i] == d[i]);
                    }
                }
            }
        }
    }
}

/// After a scan in which the merge heads changed, unless a merge has just
/// begun with nothing unmerged yet, the conflicted paths recorded are exactly
/// the paths of the scanned statuses that are unmerged, in order (so no path
/// whose status is not unmerged is recorded), and the change is reported.
pub proof fn lemma_scan_records_exactly_unmerged_paths(
    statuses: Seq<(Seq<char>, FileStatus)>,
    prev: (Seq<Seq<char>>, Option<Seq<char>>, Seq<Option<Seq<char>>>),
    message: Option<Seq<char>>,
    heads: Seq<Option<Seq<char>>>,
)
    requires
        heads != prev.2,
        !(any_head(heads) && !any_head(prev.2) && forall|i: int| 0 <= i < statuses.len() ==> (#[trigger] statuses[i]).1 !is Unmerged),
    ensures
        merge_after_scan(statuses, prev, message, heads).0.0 == statuses.filter(
            |e: (Seq<char>, FileStatus)| entry_unmerged(e),
        ).map_values(|e: (Seq<char>, FileStatus)| e.0),
        merge_after_scan(statuses, prev, message, heads).0.2 == heads,
        merge_after_scan(statuses, prev, message, heads).1,
        forall|k: int| 0 <= k < merge_after_scan(statuses, prev, message, heads).0.0.len() ==> unmerged_path_in(
            statuses,
            #[trigger] merge_after_scan(statuses, prev, message, heads).0.0[k],
        ),
{
    lemma_conflicted_paths_are_unmerged_entries(statuses);
    lemma_conflicted_paths_come_from_unmerged(statuses);
}

/// Whether `p` is the path of an unmerged entry of `s`.
pub open spec fn unmerged_path_in(s: Seq<(Seq<char>, FileStatus)>, p: Seq<char>) -> bool {
    exists|i: int| 0 <= i < s.len() && (#[trigger] s[i]).1 is Unmerged && s[i].0 == p
}

/// A scan in which the merge heads are as before keeps the recorded
/// conflicted paths, takes the new message and heads, and reports no change.
pub proof fn lemma_scan_with_same_heads_keeps_conflicts(
    statuses: Seq<(Seq<char>, FileStatus)>,
    prev: (Seq<Seq<char>>, Option<Seq<char>>, Seq<Option<Seq<char>>>),
    message: Option<Seq<char>>,
    heads: Seq<Option<Seq<char>>>,
)
    requires
        heads == prev.2,
    ensures
        merge_after_scan(statuses, prev, message, heads) == ((prev.0, message, heads), false),
{
}

proof fn lemma_conflicted_paths_come_from_unmerged(s: Seq<(Seq<char>, FileStatus)>)
    ensures
        forall|k: int| 0 <= k < conflicted_paths_of(s).len() ==> unmerged_path_in(s, #[trigger] conflicted_paths_of(s)[k]),
    decreases s.len(),
{
    if s.len() > 0 {
        let d = s.drop_last();
        lemma_conflicted_paths_come_from_unmerged(d);
        let c = conflicted_paths_of(s);
        let cd = conflicted_paths_of(d);
        if s.last().1 is Unmerged {
            assert(c =~= cd.push(s.last().0));
        } else {
            assert(c =~= cd);
        }
        assert forall|k: int| 0 <= k < c.len() implies unmerged_path_in(s, #[trigger] c[k]) by {
            if k < cd.len() {
                assert(c[k] == cd[k]);
                assert(unmerged_path_in(d, cd[k]));
                let i = choose|i: int| 0 <= i < d.len() && (#[trigger] d[i]).1 is Unmerged && d[i].0 == cd[k];
                assert(s[i] == d[i]);
            } else {
                assert(s[s.len() - 1] == s.last());
            }
        }
    }
}

/// Copies a list of strings.
fn copy_strings(v: &Vec<String>) -> (r: Vec<String>)
    ensures
        strings_view(r@) == strings_view(v@),
{
    let mut r: Vec<String> = Vec::new();
    let mut i: usize = 0;
    while i < v.len()
        invariant
            i <= v@.len(),
            strings_view(r@) == strings_view(v@).subrange(0, i as int),
        decreases v@.len() - i,
    {
        let ghost before = strings_view(r@);
        r.push(v[i].clone());
        assert(strings_view(r@) =~= before.push(v@[i as int]@));
        i = i + 1;
    }
    assert(strings_view(v@).subrange(0, v@.len() as int) =~= strings_view(v@));
    r
}

/// Copies a list of heads.
fn copy_heads(v: &Vec<Option<String>>) -> (r: Vec<Option<String>>)
    ensures
        heads_view(r@) == heads_view(v@),
{
    let mut r: Vec<Option<String>> = Vec::new();
    let mut i: usize = 0;
    while i < v.len()
        invariant
            i <= v@.len(),
            heads_view(r@) == heads_view(v@).subrange(0, i as int),
        decreases v@.len() - i,
    {
        let ghost before = heads_view(r@);
        r.push(v[i].clone());
        assert(heads_view(r@) =~= before.push(opt_view(v@[i as int])));
        i = i + 1;
    }
    assert(heads_view(v@).subrange(0, v@.len() as int) =~= heads_view(v@));
    r
}

/// Whether two lists of heads are the same.
fn heads_equal(a: &Vec<Option<String>>, b: &Vec<Option<String>>) -> (r: bool)
    ensures
        r == (heads_view(a@) == heads_view(b@)),
{
    if a.len() != b.len() {
        assert(heads_view(a@).len() != heads_view(b@).len());
        return false;
    }
    let mut i: usize = 0;
    while i < a.len()
        invariant
            a@.len() == b@.len(),
            i <= a@.len(),
            forall|k: int| 0 <= k < i ==> opt_view(#[trigger] a@[k]) == opt_view(b@[k]),
        decreases a@.len() - i,
    {
        if !opt_strings_equal(&a[i], &b[i]) {
            assert(heads_view(a@)[i as int] != heads_view(b@)[i as int]);
            return false;
        }
        i = i + 1;
    }
    assert(heads_view(a@) =~= heads_view(b@));
    true
}

/// Whether some head is set.
fn has_head(h: &Vec<Option<String>>) -> (r: bool)
    ensures
        r == any_head(heads_view(h@)),
{
    let mut i: usize = 0;
    while i < h.len()
        invariant
            i <= h@.len(),
            forall|k: int| 0 <= k < i ==> (#[trigger] h@[k]) is None,
        decreases h@.len() - i,
    {
        if h[i].is_some() {
            assert(heads_view(h@)[i as int] is Some);
            return true;
        }
        i = i + 1;
    }
    assert forall|k: int| 0 <= k < heads_view(h@).len() implies !(#[trigger] heads_view(h@)[k] is Some) by {
        assert(h@[k] is None);
    }
    false
}

impl MergeDetails {
    /// No merge in progress.
    pub fn default() -> (r: MergeDetails)
        ensures
            r.conflicted_paths@.len() == 0,
            r.message is None,
            r.heads@.len() == 0,
    {
        MergeDetails { conflicted_paths: Vec::new(), message: None, heads: Vec::new() }
    }

    /// The merge details after a scan that found these statuses, this merge
    /// message and these heads, as `merge_after_scan` describes; with whether
    /// the merge heads changed.
    pub fn after_scan(
        statuses: &Vec<StatusEntry>,
        prev: &MergeDetails,
        message: Option<String>,
        heads: Vec<Option<String>>,
    ) -> (r: (MergeDetails, bool))
        ensures
            (merge_view(r.0), r.1) == merge_after_scan(
                statuses_view(statuses@),
                merge_view(*prev),
                opt_view(message),
                heads_view(heads@),
            ),
    {
        let changed = !heads_equal(&heads, &prev.heads);
        if changed {
            let ghost sv = statuses_view(statuses@);
            let mut current: Vec<String> = Vec::new();
            let mut i: usize = 0;
            while i < statuses.len()
                invariant
                    sv == statuses_view(statuses@),
                    i <= statuses@.len(),
                    strings_view(current@) == conflicted_paths_of(sv.subrange(0, i as int)),
                decreases statuses@.len() - i,
            {
                assert(sv.subrange(0, i + 1).drop_last() =~= sv.subrange(0, i as int));
                let ghost before = strings_view(current@);
                if statuses[i].status.is_conflicted() {
                    current.push(statuses[i].repo_path.clone());
                    assert(strings_view(current@) =~= before.push(statuses@[i as int].repo_path@));
                }
                assert(strings_view(current@) =~= conflicted_paths_of(sv.subrange(0, i + 1)));
                i = i + 1;
            }
            assert(sv.subrange(0, sv.len() as int) =~= sv);
            if has_head(&heads) && !has_head(&prev.heads) && current.len() == 0 {
                return (
                    MergeDetails {
                        conflicted_paths: copy_strings(&prev.conflicted_paths),
                        message,
                        heads: copy_heads(&prev.heads),
                    },
                    false,
                );
            }
            (MergeDetails { conflicted_paths: current, message, heads }, true)
        } else {
            (MergeDetails { conflicted_paths: copy_strings(&prev.conflicted_paths), message, heads }, false)
        }
    }
}

/// What a repository looked like at its last scan.
#[derive(Debug)]
pub struct RepositorySnapshot {
    pub id: RepositoryId,
    pub statuses_by_path: Vec<StatusEntry>,
    pub work_directory_abs_path: String,
    pub scan_id: u64,
    pub merge: MergeDetails,
}

/// The status of a path: that of its entry, where it has one.
pub open spec fn status_of(statuses: Seq<(Seq<char>, FileStatus)>, path: Seq<char>) -> Option<FileStatus> {
    if exists|i: int| 0 <= i < statuses.len() && (#[trigger] statuses[i]).0 == path {
        let i = choose|i: int| 0 <= i < statuses.len() && (#[trigger] statuses[i]).0 == path && forall|j: int|
            0 <= j < i ==> (#[trigger] statuses[j]).0 != path;
        Some(statuses[i].1)
    } else {
        None
    }
}

/// Whether the status of a path says it is in conflict.
pub open spec fn conflicted_now(statuses: Seq<(Seq<char>, FileStatus)>, path: Seq<char>) -> bool {
    match status_of(statuses, path) {
        Some(s) => s is Unmerged,
        None => false,
    }
}

/// What `Path::file_name` gives of a path: its last component, unless that
/// is `..` or there is none.
pub uninterp spec fn path_file_name(path: Seq<char>) -> Option<Seq<char>>;

/// `Path::file_name`, as text.
#[verifier::external_body]
fn file_name_of(path: &str) -> (r: Option<String>)
    ensures
        opt_view(r) == path_file_name(path@),
{
    match std::path::Path::new(path).file_name() {
        Some(n) => Some(n.to_string_lossy().into_owned()),
        None => None,
    }
}

impl RepositorySnapshot {
    /// The snapshot of a repository not yet scanned.
    pub fn empty(id: RepositoryId, work_directory_abs_path: String) -> (r: RepositorySnapshot)
        ensures
            r.id == id,
            r.work_directory_abs_path@ == work_directory_abs_path@,
            r.statuses_by_path@.len() == 0,
            r.scan_id == 0,
            merge_view(r.merge) == (Seq::<Seq<char>>::empty(), None::<Seq<char>>, Seq::<Option<Seq<char>>>::empty()),
    {
        let r = RepositorySnapshot {
            id,
            statuses_by_path: Vec::new(),
            work_directory_abs_path,
            scan_id: 0,
            merge: MergeDetails::default(),
        };
        assert(strings_view(r.merge.conflicted_paths@) =~= Seq::<Seq<char>>::empty());
        assert(heads_view(r.merge.heads@) =~= Seq::<Option<Seq<char>>>::empty());
        r
    }

    /// The status of a path, as `status_of` describes.
    pub fn status_for_path(&self, path: &str) -> (r: Option<FileStatus>)
        ensures
            r == status_of(statuses_view(self.statuses_by_path@), path@),
    {
        let ghost sv = statuses_view(self.statuses_by_path@);
        let mut i: usize = 0;
        while i < self.statuses_by_path.len()
            invariant
                sv == statuses_view(self.statuses_by_path@),
                i <= sv.len(),
                forall|j: int| 0 <= j < i ==> (#[trigger] sv[j]).0 != path@,
            decreases sv.len() - i,
        {
            if str_eq(self.statuses_by_path[i].repo_path.as_str(), path) {
                proof {
                    let c = choose|k: int| 0 <= k < sv.len() && (#[trigger] sv[k]).0 == path@ && forall|j: int|
                        0 <= j < k ==> (#[trigger] sv[j]).0 != path@;
                    assert(sv[i as int].0 == path@);
                    if c != i {
                        if c < i {
                            assert(sv[c].0 != path@);
                        } else {
                            assert(sv[i as int].0 != path@);
                        }
                    }
                }
                return Some(self.statuses_by_path[i].status);
            }
            i = i + 1;
        }
        None
    }

    /// Whether the path was in conflict when the merge heads last changed.
    pub fn had_conflict_on_last_merge_head_change(&self, repo_path: &str) -> (r: bool)
        ensures
            r == strings_view(self.merge.conflicted_paths@).contains(repo_path@),
    {
        let ghost cv = strings_view(self.merge.conflicted_paths@);
        let mut i: usize = 0;
        while i < self.merge.conflicted_paths.len()
            invariant
                cv == strings_view(self.merge.conflicted_paths@),
                i <= cv.len(),
                forall|j: int| 0 <= j < i ==> cv[j] != repo_path@,
            decreases cv.len() - i,
        {
            if str_eq(self.merge.conflicted_paths[i].as_str(), repo_path) {
                assert(cv[i as int] == repo_path@);
                return true;
            }
            i = i + 1;
        }
        false
    }

    /// Whether a path is in conflict: it was when the merge heads last
    /// changed, or its status says so now.
    pub fn has_conflict(&self, repo_path: &str) -> (r: bool)
        ensures
            r == (strings_view(self.merge.conflicted_paths@).contains(repo_path@) || conflicted_now(
                statuses_view(self.statuses_by_path@),
                repo_path@,
            )),
    {
        let had = self.had_conflict_on_last_merge_head_change(repo_path);
        let now = match self.status_for_path(repo_path) {
            Some(s) => s.is_conflicted(),
            None => false,
        };
        had || now
    }

    /// The name the repository selector shows: the last component of the
    /// work directory, or nothing.
    pub fn display_name(&self) -> (r: String)
        ensures
            r@ == match path_file_name(self.work_directory_abs_path@) {
                Some(n) => n,
                None => Seq::<char>::empty(),
            },
    {
        match file_name_of(self.work_directory_abs_path.as_str()) {
            Some(n) => n,
            None => String::new(),
        }
    }

    /// The path of a file in the repository, where it lies below the work
    /// directory.
    pub fn abs_path_to_repo_path(&self, abs_path: &str) -> (r: Option<String>)
        ensures
            opt_view(r) == path_strip_prefix(abs_path@, self.work_directory_abs_path@),
    {
        strip_path_prefix(abs_path, self.work_directory_abs_path.as_str())
    }
}

/// Whether two status lists are the same.
fn statuses_equal(a: &Vec<StatusEntry>, b: &Vec<StatusEntry>) -> (r: bool)
    ensures
        r == (statuses_view(a@) == statuses_view(b@)),
{
    if a.len() != b.len() {
        assert(statuses_view(a@).len() != statuses_view(b@).len());
        return false;
    }
    let mut i: usize = 0;
    while i < a.len()
        invariant
            a@.len() == b@.len(),
            i <= a@.len(),
            forall|k: int| 0 <= k < i ==> statuses_view(a@)[k] == statuses_view(b@)[k],
        decreases a@.len() - i,
    {
        if !(a[i].status == b[i].status) || !str_eq(a[i].repo_path.as_str(), b[i].repo_path.as_str()) {
            assert(statuses_view(a@)[i as int] != statuses_view(b@)[i as int]);
            return false;
        }
        i = i + 1;
    }
    assert(statuses_view(a@) =~= statuses_view(b@));
    true
}

/// The events a scan reports: an update where the merge heads, the branch
/// or the statuses changed, and a merge-heads change where they did.
pub open spec fn scan_events(merge_heads_changed: bool, branch_changed: bool, statuses_changed: bool) -> Seq<RepositoryEvent> {
    (if merge_heads_changed || branch_changed || statuses_changed {
        seq![RepositoryEvent::Updated { full_scan: true }]
    } else {
        Seq::empty()
    }) + (if merge_heads_changed {
        seq![RepositoryEvent::MergeHeadsChanged]
    } else {
        Seq::empty()
    })
}

/// The snapshot after a scan, from the previous one and what the scan
/// found, with the events it reports: the statuses and merge details are
/// the new ones, the scan count goes up by one, and the events are those of
/// `scan_events`.
pub fn compute_snapshot(
    prev: &RepositorySnapshot,
    statuses: Vec<StatusEntry>,
    branch_changed: bool,
    merge_message: Option<String>,
    merge_heads: Vec<Option<String>>,
) -> (r: (RepositorySnapshot, Vec<RepositoryEvent>))
    requires
        prev.scan_id < u64::MAX,
    ensures
        ({
            let (m, changed) = merge_after_scan(
                statuses_view(statuses@),
                merge_view(prev.merge),
                opt_view(merge_message),
                heads_view(merge_heads@),
            );
            &&& r.0.id == prev.id
            &&& r.0.work_directory_abs_path@ == prev.work_directory_abs_path@
            &&& statuses_view(r.0.statuses_by_path@) == statuses_view(statuses@)
            &&& r.0.scan_id == prev.scan_id + 1
            &&& merge_view(r.0.merge) == m
            &&& r.1@ == scan_events(changed, branch_changed, statuses_view(statuses@) != statuses_view(prev.statuses_by_path@))
        }),
{
    let (merge, merge_heads_changed) = MergeDetails::after_scan(&statuses, &prev.merge, merge_message, merge_heads);
    let statuses_changed = !statuses_equal(&statuses, &prev.statuses_by_path);
    let mut events: Vec<RepositoryEvent> = Vec::new();
    if merge_heads_changed || branch_changed || statuses_changed {
        events.push(RepositoryEvent::Updated { full_scan: true });
    }
    if merge_heads_changed {
        events.push(RepositoryEvent::MergeHeadsChanged);
    }
    assert(events@ =~= scan_events(merge_heads_changed, branch_changed, statuses_changed));
    let snapshot = RepositorySnapshot {
        id: prev.id,
        statuses_by_path: statuses,
        work_directory_abs_path: prev.work_directory_abs_path.clone(),
        scan_id: prev.scan_id + 1,
        merge,
    };
    (snapshot, events)
}

/// A change to a worktree's git repositories: where its work directory was
/// and is, and, for a new one, where its git directories are.
#[derive(Debug)]
pub struct UpdatedGitRepository {
    pub old_work_directory_abs_path: Option<String>,
    pub new_work_directory_abs_path: Option<String>,
    pub dot_git_abs_path: Option<String>,
    pub repository_dir_abs_path: Option<String>,
    pub common_dir_abs_path: Option<String>,
}

/// What the git store does to a repository in answer to a worktree's
/// repository changes.
#[derive(Debug)]
pub enum RepositoryChange {
    /// A known repository moved: rescan it at its new work directory.
    Rescan { id: RepositoryId, work_directory_abs_path: String },
    /// A new repository: open it and scan it.
    Open { id: RepositoryId, work_directory_abs_path: String, dot_git_abs_path: String, repository_dir_abs_path: String, common_dir_abs_path: String },
    /// A repository went away.
    Close { id: RepositoryId },
}

/// The repositories the git store knows, by id with their work directories
/// in the order they were added, the active one, and the next id to give.
pub struct RepositoryRegistry {
    pub repositories: Vec<(RepositoryId, String)>,
    pub active_repo_id: Option<RepositoryId>,
    pub next_repository_id: u64,
}

/// The ids of the registry, in order.
pub open spec fn registry_ids(r: Seq<(RepositoryId, String)>) -> Seq<RepositoryId> {
    r.map_values(|e: (RepositoryId, String)| e.0)
}

/// Whether a repository's work directory is the update's old or new one.
pub open spec fn matches_update(dir: Seq<char>, u: UpdatedGitRepository) -> bool {
    opt_view(u.old_work_directory_abs_path) == Some(dir) || opt_view(u.new_work_directory_abs_path) == Some(dir)
}

/// The registry part of following a worktree's repository changes: the
/// repositories with their work directories, the active one, the next id,
/// the ids to close once all changes are in, and what was decided so far.
pub struct RegistryStep {
    pub repos: Seq<(RepositoryId, String)>,
    pub active: Option<RepositoryId>,
    pub next: int,
    pub removed: Seq<RepositoryId>,
    pub changes: Seq<RepositoryChange>,
    pub events: Seq<GitStoreEvent>,
}

/// The first repository whose work directory the update names.
pub open spec fn first_match(repos: Seq<(RepositoryId, String)>, u: UpdatedGitRepository) -> Option<int> {
    if exists|i: int| 0 <= i < repos.len() && matches_update((#[trigger] repos[i]).1@, u) {
        Some(choose|i: int| 0 <= i < repos.len() && matches_update((#[trigger] repos[i]).1@, u) && forall|j: int|
            0 <= j < i ==> !matches_update((#[trigger] repos[j]).1@, u))
    } else {
        None
    }
}

/// One repository change taken in: a known repository (the first whose
/// work directory the change names) moves and is rescanned, or is set aside
/// to be closed; otherwise a new repository with all its directories known
/// opens under the next id, and becomes active where none is.
pub open spec fn apply_update(s: RegistryStep, u: UpdatedGitRepository) -> RegistryStep {
    match first_match(s.repos, u) {
        Some(i) => match u.new_work_directory_abs_path {
            Some(dir) => RegistryStep {
                repos: s.repos.update(i, (s.repos[i].0, dir)),
                changes: s.changes.push(RepositoryChange::Rescan { id: s.repos[i].0, work_directory_abs_path: dir }),
                ..s
            },
            None => RegistryStep { removed: s.removed.push(s.repos[i].0), ..s },
        },
        None => match (u.new_work_directory_abs_path, u.dot_git_abs_path, u.repository_dir_abs_path, u.common_dir_abs_path) {
            (Some(work), Some(dot_git), Some(repo_dir), Some(common)) => {
                let id = RepositoryId(s.next as u64);
                RegistryStep {
                    repos: s.repos.push((id, work)),
                    active: if s.active is None { Some(id) } else { s.active },
                    next: s.next + 1,
                    removed: s.removed,
                    changes: s.changes.push(RepositoryChange::Open {
                        id,
                        work_directory_abs_path: work,
                        dot_git_abs_path: dot_git,
                        repository_dir_abs_path: repo_dir,
                        common_dir_abs_path: common,
                    }),
                    events: s.events.push(GitStoreEvent::RepositoryAdded(id)) + if s.active is None {
                        seq![GitStoreEvent::ActiveRepositoryChanged(Some(id))]
                    } else {
                        Seq::empty()
                    },
                }
            },
            _ => s,
        },
    }
}

/// The first `k` repository changes taken in, in order.
pub open spec fn apply_updates(s: RegistryStep, updates: Seq<UpdatedGitRepository>, k: int) -> RegistryStep
    decreases k,
{
    if k <= 0 {
        s
    } else {
        apply_update(apply_updates(s, updates, k - 1), updates[k - 1])
    }
}

/// The repository a path belongs to, among the first `k`: of those whose
/// work directory holds the path, the one whose directory comes last in
/// path order (the later one where neither comes before the other), with
/// its work directory and the path below it.
pub open spec fn containing_repository(
    repos: Seq<(RepositoryId, String)>,
    abs_path: Seq<char>,
    k: int,
) -> Option<(RepositoryId, Seq<char>, Seq<char>)>
    decreases k,
{
    if k <= 0 {
        None
    } else {
        let best = containing_repository(repos, abs_path, k - 1);
        let id = repos[k - 1].0;
        let dir = repos[k - 1].1@;
        match path_strip_prefix(abs_path, dir) {
            None => best,
            Some(rel) => match best {
                Some((_, bdir, _)) => if path_order_less(dir, bdir) {
                    best
                } else {
                    Some((id, dir, rel))
                },
                None => Some((id, dir, rel)),
            },
        }
    }
}

/// The position of the first repository with the id.
pub open spec fn position_of_id(repos: Seq<(RepositoryId, String)>, id: RepositoryId) -> Option<int> {
    if exists|i: int| 0 <= i < repos.len() && (#[trigger] repos[i]).0 == id {
        Some(choose|i: int| 0 <= i < repos.len() && (#[trigger] repos[i]).0 == id && forall|j: int| 0 <= j < i ==> (#[trigger] repos[j]).0 != id)
    } else {
        None
    }
}

/// A repository set aside is closed: it stops being the active one (which
/// is reported) and leaves the registry.
pub open spec fn apply_removal(s: RegistryStep, id: RepositoryId) -> RegistryStep {
    let s1 = if s.active == Some(id) {
        RegistryStep { active: None, events: s.events.push(GitStoreEvent::ActiveRepositoryChanged(None)), ..s }
    } else {
        s
    };
    match position_of_id(s1.repos, id) {
        Some(p) => RegistryStep { repos: s1.repos.remove(p), changes: s1.changes.push(RepositoryChange::Close { id }), ..s1 },
        None => s1,
    }
}

/// The first `j` repositories set aside closed, in order.
pub open spec fn apply_removals(s: RegistryStep, ids: Seq<RepositoryId>, j: int) -> RegistryStep
    decreases j,
{
    if j <= 0 {
        s
    } else {
        apply_removal(apply_removals(s, ids, j - 1), ids[j - 1])
    }
}

/// All changes taken in, then the repositories set aside closed.
pub open spec fn registry_after(
    repos: Seq<(RepositoryId, String)>,
    active: Option<RepositoryId>,
    next: int,
    updates: Seq<UpdatedGitRepository>,
) -> RegistryStep {
    let start = RegistryStep { repos, active, next, removed: Seq::empty(), changes: Seq::empty(), events: Seq::empty() };
    let taken = apply_updates(start, updates, updates.len() as int);
    apply_removals(taken, taken.removed, taken.removed.len() as int)
}

/// The active repository, where there is one, is among the repositories.
pub open spec fn active_registered(repos: Seq<(RepositoryId, String)>, active: Option<RepositoryId>) -> bool {
    match active {
        None => true,
        Some(id) => exists|i: int| 0 <= i < repos.len() && (#[trigger] repos[i]).0 == id,
    }
}

proof fn lemma_first_match_in_range(repos: Seq<(RepositoryId, String)>, u: UpdatedGitRepository)
    ensures
        first_match(repos, u) matches Some(i) ==> 0 <= i < repos.len(),
{
    if exists|i: int| 0 <= i < repos.len() && matches_update((#[trigger] repos[i]).1@, u) {
        let w = choose|i: int| 0 <= i < repos.len() && matches_update((#[trigger] repos[i]).1@, u);
        assert(exists|i: int| 0 <= i < repos.len() && matches_update((#[trigger] repos[i]).1@, u) && forall|j: int|
            0 <= j < i ==> !matches_update((#[trigger] repos[j]).1@, u)) by {
            lemma_least_match(repos, u, w);
        }
    }
}

proof fn lemma_least_match(repos: Seq<(RepositoryId, String)>, u: UpdatedGitRepository, w: int)
    requires
        0 <= w < repos.len(),
        matches_update(repos[w].1@, u),
    ensures
        exists|i: int| 0 <= i < repos.len() && matches_update((#[trigger] repos[i]).1@, u) && forall|j: int|
            0 <= j < i ==> !matches_update((#[trigger] repos[j]).1@, u),
    decreases w,
{
    if exists|j: int| 0 <= j < w && matches_update((#[trigger] repos[j]).1@, u) {
        let v = choose|j: int| 0 <= j < w && matches_update((#[trigger] repos[j]).1@, u);
        lemma_least_match(repos, u, v);
    } else {
        assert(forall|j: int| 0 <= j < w ==> !matches_update((#[trigger] repos[j]).1@, u));
    }
}

proof fn lemma_position_of_id_found(repos: Seq<(RepositoryId, String)>, id: RepositoryId)
    ensures
        position_of_id(repos, id) matches Some(p) ==> 0 <= p < repos.len() && repos[p].0 == id,
{
    if exists|i: int| 0 <= i < repos.len() && (#[trigger] repos[i]).0 == id {
        let w = choose|i: int| 0 <= i < repos.len() && (#[trigger] repos[i]).0 == id;
        lemma_least_id(repos, id, w);
    }
}

proof fn lemma_least_id(repos: Seq<(RepositoryId, String)>, id: RepositoryId, w: int)
    requires
        0 <= w < repos.len(),
        repos[w].0 == id,
    ensures
        exists|i: int| 0 <= i < repos.len() && (#[trigger] repos[i]).0 == id && forall|j: int| 0 <= j < i ==> (#[trigger] repos[j]).0 != id,
    decreases w,
{
    if exists|j: int| 0 <= j < w && (#[trigger] repos[j]).0 == id {
        let v = choose|j: int| 0 <= j < w && (#[trigger] repos[j]).0 == id;
        lemma_least_id(repos, id, v);
    } else {
        assert(forall|j: int| 0 <= j < w ==> (#[trigger] repos[j]).0 != id);
    }
}

proof fn lemma_update_keeps_active_registered(s: RegistryStep, u: UpdatedGitRepository)
    requires
        active_registered(s.repos, s.active),
    ensures
        active_registered(apply_update(s, u).repos, apply_update(s, u).active),
{
    let t = apply_update(s, u);
    lemma_first_match_in_range(s.repos, u);
    match first_match(s.repos, u) {
        Some(i) => {
            if u.new_work_directory_abs_path is Some {
                if let Some(a) = s.active {
                    let j = choose|j: int| 0 <= j < s.repos.len() && (#[trigger] s.repos[j]).0 == a;
                    assert(t.repos[j].0 == a);
                }
            }
        },
        None => {
            if t.repos.len() == s.repos.len() + 1 {
                let n = s.repos.len() as int;
                match s.active {
                    None => {
                        assert(t.repos[n].0 == t.active->0);
                    },
                    Some(a) => {
                        let j = choose|j: int| 0 <= j < s.repos.len() && (#[trigger] s.repos[j]).0 == a;
                        assert(t.repos[j] == s.repos[j]);
                    },
                }
            }
        },
    }
}

proof fn lemma_updates_keep_active_registered(s: RegistryStep, updates: Seq<UpdatedGitRepository>, k: int)
    requires
        active_registered(s.repos, s.active),
    ensures
        active_registered(apply_updates(s, updates, k).repos, apply_updates(s, updates, k).active),
    decreases k,
{
    if k > 0 {
        lemma_updates_keep_active_registered(s, updates, k - 1);
        lemma_update_keeps_active_registered(apply_updates(s, updates, k - 1), updates[k - 1]);
    }
}

#[verifier::spinoff_prover]
proof fn lemma_removal_keeps_active_registered(s: RegistryStep, id: RepositoryId)
    requires
        active_registered(s.repos, s.active),
    ensures
        active_registered(apply_removal(s, id).repos, apply_removal(s, id).active),
{
    let s1 = if s.active == Some(id) {
        RegistryStep { active: None, events: s.events.push(GitStoreEvent::ActiveRepositoryChanged(None)), ..s }
    } else {
        s
    };
    if let Some(a) = s1.active {
        assert(a != id);
        let j = choose|j: int| 0 <= j < s1.repos.len() && (#[trigger] s1.repos[j]).0 == a;
        lemma_position_of_id_found(s1.repos, id);
        match position_of_id(s1.repos, id) {
            Some(p) => {
                let r = s1.repos.remove(p);
                assert(s1.repos[p].0 == id);
                assert(j != p);
                if j < p {
                    assert(r[j] == s1.repos[j]);
                } else {
                    assert(r[j - 1] == s1.repos[j]);
                }
            },
            None => {},
        }
    }
}

proof fn lemma_removals_keep_active_registered(s: RegistryStep, ids: Seq<RepositoryId>, j: int)
    requires
        active_registered(s.repos, s.active),
    ensures
        active_registered(apply_removals(s, ids, j).repos, apply_removals(s, ids, j).active),
    decreases j,
{
    if j > 0 {
        lemma_removals_keep_active_registered(s, ids, j - 1);
        lemma_removal_keeps_active_registered(apply_removals(s, ids, j - 1), ids[j - 1]);
    }
}

/// Following a worktree's repository changes keeps the active repository,
/// where there is one, among the registered repositories.
pub proof fn lemma_active_repository_stays_registered(
    repos: Seq<(RepositoryId, String)>,
    active: Option<RepositoryId>,
    next: int,
    updates: Seq<UpdatedGitRepository>,
)
    requires
        active_registered(repos, active),
    ensures
        active_registered(
            registry_after(repos, active, next, updates).repos,
            registry_after(repos, active, next, updates).active,
        ),
{
    let start = RegistryStep { repos, active, next, removed: Seq::empty(), changes: Seq::empty(), events: Seq::empty() };
    lemma_updates_keep_active_registered(start, updates, updates.len() as int);
    let taken = apply_updates(start, updates, updates.len() as int);
    lemma_removals_keep_active_registered(taken, taken.removed, taken.removed.len() as int);
}

proof fn lemma_apply_updates_next(s: RegistryStep, updates: Seq<UpdatedGitRepository>, k: int)
    requires
        0 <= k,
    ensures
        s.next <= apply_updates(s, updates, k).next <= s.next + k,
    decreases k,
{
    if k > 0 {
        lemma_apply_updates_next(s, updates, k - 1);
    }
}

impl RepositoryRegistry {
    /// No repositories.
    pub fn new() -> (r: RepositoryRegistry)
        ensures
            r.repositories@.len() == 0,
            r.active_repo_id is None,
            r.next_repository_id == 1,
    {
        RepositoryRegistry { repositories: Vec::new(), active_repo_id: None, next_repository_id: 1 }
    }

    /// The position of the first repository whose work directory the update
    /// names.
    fn find_match(&self, u: &UpdatedGitRepository) -> (r: Option<usize>)
        ensures
            r is None <==> first_match(self.repositories@, *u) is None,
            r matches Some(i) ==> i < self.repositories@.len() && first_match(self.repositories@, *u) == Some(i as int),
    {
        let mut i: usize = 0;
        while i < self.repositories.len()
            invariant
                i <= self.repositories@.len(),
                forall|j: int| 0 <= j < i ==> !matches_update((#[trigger] self.repositories@[j]).1@, *u),
            decreases self.repositories@.len() - i,
        {
            let dir = self.repositories[i].1.as_str();
            let old_matches = match &u.old_work_directory_abs_path {
                Some(p) => str_eq(p.as_str(), dir),
                None => false,
            };
            let new_matches = match &u.new_work_directory_abs_path {
                Some(p) => str_eq(p.as_str(), dir),
                None => false,
            };
            if old_matches || new_matches {
                proof {
                    let c = choose|c: int| 0 <= c < self.repositories@.len() && matches_update((#[trigger] self.repositories@[c]).1@, *u)
                        && forall|j: int| 0 <= j < c ==> !matches_update((#[trigger] self.repositories@[j]).1@, *u);
                    assert(matches_update(self.repositories@[i as int].1@, *u));
                    if c != i {
                        if c < i {
                            assert(!matches_update(self.repositories@[c].1@, *u));
                        } else {
                            assert(!matches_update(self.repositories@[i as int].1@, *u));
                        }
                    }
                }
                return Some(i);
            }
            i = i + 1;
        }
        None
    }

    /// The active repository, as its id and work directory; none where no
    /// repository is active (or the active id is not registered).
    pub fn active_repository(&self) -> (r: Option<(RepositoryId, String)>)
        ensures
            match self.active_repo_id {
                None => r is None,
                Some(id) => match position_of_id(self.repositories@, id) {
                    None => r is None,
                    Some(p) => r matches Some((rid, dir)) && rid == id && dir@ == self.repositories@[p].1@,
                },
            },
    {
        match self.active_repo_id {
            None => None,
            Some(id) => match self.position_of(id) {
                None => None,
                Some(p) => Some((id, owned(self.repositories[p].1.as_str()))),
            },
        }
    }

    /// The position of the first repository with the id.
    fn position_of(&self, id: RepositoryId) -> (r: Option<usize>)
        ensures
            match r {
                None => position_of_id(self.repositories@, id) is None,
                Some(p) => position_of_id(self.repositories@, id) == Some(p as int) && p < self.repositories@.len(),
            },
    {
        let ghost rs = self.repositories@;
        let mut i: usize = 0;
        while i < self.repositories.len()
            invariant
                rs == self.repositories@,
                i <= rs.len(),
                forall|j: int| 0 <= j < i ==> (#[trigger] rs[j]).0 != id,
            decreases rs.len() - i,
        {
            if self.repositories[i].0 == id {
                proof {
                    let c = choose|c: int| 0 <= c < rs.len() && (#[trigger] rs[c]).0 == id && forall|j: int|
                        0 <= j < c ==> (#[trigger] rs[j]).0 != id;
                    assert(rs[i as int].0 == id);
                    if c < i {
                        assert(rs[c].0 != id);
                    } else if c > i {
                        assert(rs[i as int].0 != id);
                    }
                }
                return Some(i);
            }
            i = i + 1;
        }
        None
    }

    /// Makes a registered repository the active one, which is reported;
    /// nothing happens for an id not registered.
    pub fn set_as_active_repository(&mut self, id: RepositoryId) -> (r: Option<GitStoreEvent>)
        ensures
            final(self).repositories@ == old(self).repositories@,
            final(self).next_repository_id == old(self).next_repository_id,
            if position_of_id(old(self).repositories@, id) is Some {
                &&& final(self).active_repo_id == Some(id)
                &&& r == Some(GitStoreEvent::ActiveRepositoryChanged(Some(id)))
            } else {
                &&& final(self).active_repo_id == old(self).active_repo_id
                &&& r is None
            },
    {
        match self.position_of(id) {
            Some(_) => {
                self.active_repo_id = Some(id);
                Some(GitStoreEvent::ActiveRepositoryChanged(Some(id)))
            },
            None => None,
        }
    }

    /// The repository a path belongs to and the path below its work
    /// directory, as `containing_repository` describes.
    pub fn repository_and_path_for_abs_path(&self, abs_path: &str) -> (r: Option<(RepositoryId, String)>)
        ensures
            match containing_repository(self.repositories@, abs_path@, self.repositories@.len() as int) {
                None => r is None,
                Some((id, dir, rel)) => r matches Some((rid, rp)) && rid == id && rp@ == rel,
            },
    {
        let ghost rs = self.repositories@;
        let mut best: Option<(RepositoryId, String, String)> = None;
        let mut i: usize = 0;
        while i < self.repositories.len()
            invariant
                rs == self.repositories@,
                i <= rs.len(),
                match best {
                    None => containing_repository(rs, abs_path@, i as int) is None,
                    Some((id, dir, rel)) => containing_repository(rs, abs_path@, i as int) == Some((id, dir@, rel@)),
                },
            decreases rs.len() - i,
        {
            let (id, dir) = (self.repositories[i].0, &self.repositories[i].1);
            match strip_path_prefix(abs_path, dir.as_str()) {
                None => {},
                Some(rel) => {
                    let replace = match &best {
                        Some((_, bdir, _)) => !path_less(dir.as_str(), bdir.as_str()),
                        None => true,
                    };
                    if replace {
                        best = Some((id, owned(dir.as_str()), rel));
                    }
                },
            }
            i = i + 1;
        }
        match best {
            Some((id, _, rel)) => Some((id, rel)),
            None => None,
        }
    }

    /// Follows a worktree's repository changes, as `registry_after`
    /// describes; returns what to do to the repositories and the events to
    /// report.
    pub fn update_repositories_from_worktree(&mut self, updates: Vec<UpdatedGitRepository>) -> (r: (
        Vec<RepositoryChange>,
        Vec<GitStoreEvent>,
    ))
        requires
            old(self).next_repository_id + updates@.len() <= u64::MAX,
        ensures
            ({
                let after = registry_after(
                    old(self).repositories@,
                    old(self).active_repo_id,
                    old(self).next_repository_id as int,
                    updates@,
                );
                &&& final(self).repositories@ == after.repos
                &&& final(self).active_repo_id == after.active
                &&& final(self).next_repository_id == after.next
                &&& r.0@ == after.changes
                &&& r.1@ == after.events
            }),
            active_registered(old(self).repositories@, old(self).active_repo_id) ==> active_registered(
                final(self).repositories@,
                final(self).active_repo_id,
            ),
    {
        proof {
            if active_registered(self.repositories@, self.active_repo_id) {
                lemma_active_repository_stays_registered(
                    self.repositories@,
                    self.active_repo_id,
                    self.next_repository_id as int,
                    updates@,
                );
            }
        }
        let ghost start = RegistryStep {
            repos: self.repositories@,
            active: self.active_repo_id,
            next: self.next_repository_id as int,
            removed: Seq::empty(),
            changes: Seq::empty(),
            events: Seq::empty(),
        };
        let mut changes: Vec<RepositoryChange> = Vec::new();
        let mut events: Vec<GitStoreEvent> = Vec::new();
        let mut removed: Vec<RepositoryId> = Vec::new();
        let n = updates.len();
        let mut k: usize = 0;
        while k < n
            invariant
                n == updates@.len(),
                k <= n,
                start.next + n <= u64::MAX,
                start.next == old(self).next_repository_id as int,
                ({
                    let st = apply_updates(start, updates@, k as int);
                    &&& self.repositories@ == st.repos
                    &&& self.active_repo_id == st.active
                    &&& self.next_repository_id as int == st.next
                    &&& removed@ == st.removed
                    &&& changes@ == st.changes
                    &&& events@ == st.events
                }),
            decreases n - k,
        {
            proof {
                lemma_apply_updates_next(start, updates@, k as int);
            }
            let u = &updates[k];
            match self.find_match(u) {
                Some(i) => {
                    let id = self.repositories[i].0;
                    match &u.new_work_directory_abs_path {
                        Some(dir) => {
                            self.repositories.set(i, (id, dir.clone()));
                            changes.push(RepositoryChange::Rescan { id, work_directory_abs_path: dir.clone() });
                        },
                        None => {
                            removed.push(id);
                        },
                    }
                },
                None => {
                    match (
                        &u.new_work_directory_abs_path,
                        &u.dot_git_abs_path,
                        &u.repository_dir_abs_path,
                        &u.common_dir_abs_path,
                    ) {
                        (Some(work), Some(dot_git), Some(repo_dir), Some(common)) => {
                            let id = RepositoryId(self.next_repository_id);
                            self.next_repository_id = self.next_repository_id + 1;
                            self.repositories.push((id, work.clone()));
                            changes.push(RepositoryChange::Open {
                                id,
                                work_directory_abs_path: work.clone(),
                                dot_git_abs_path: dot_git.clone(),
                                repository_dir_abs_path: repo_dir.clone(),
                                common_dir_abs_path: common.clone(),
                            });
                            events.push(GitStoreEvent::RepositoryAdded(id));
                            if self.active_repo_id.is_none() {
                                self.active_repo_id = Some(id);
                                events.push(GitStoreEvent::ActiveRepositoryChanged(Some(id)));
                            }
                        },
                        _ => {},
                    }
                },
            }
            proof {
                let prev = apply_updates(start, updates@, k as int);
                assert(apply_updates(start, updates@, k + 1) == apply_update(prev, updates@[k as int]));
            }
            assert(events@ =~= apply_updates(start, updates@, k + 1).events);
            k = k + 1;
        }
        let ghost taken = apply_updates(start, updates@, n as int);
        let mut j: usize = 0;
        while j < removed.len()
            invariant
                removed@ == taken.removed,
                j <= removed@.len(),
                ({
                    let st = apply_removals(taken, taken.removed, j as int);
                    &&& self.repositories@ == st.repos
                    &&& self.active_repo_id == st.active
                    &&& self.next_repository_id as int == st.next
                    &&& changes@ == st.changes
                    &&& events@ == st.events
                }),
            decreases removed@.len() - j,
        {
            let id = removed[j];
            if self.active_repo_id == Some(id) {
                self.active_repo_id = None;
                events.push(GitStoreEvent::ActiveRepositoryChanged(None));
            }
            let mut p: usize = 0;
            while p < self.repositories.len() && self.repositories[p].0 != id
                invariant
                    p <= self.repositories@.len(),
                    forall|q: int| 0 <= q < p ==> (#[trigger] self.repositories@[q]).0 != id,
                decreases self.repositories@.len() - p,
            {
                p = p + 1;
            }
            proof {
                let prev = apply_removals(taken, taken.removed, j as int);
                assert(apply_removals(taken, taken.removed, j + 1) == apply_removal(prev, id));
            }
            if p < self.repositories.len() {
                proof {
                    let c = choose|c: int| 0 <= c < self.repositories@.len() && (#[trigger] self.repositories@[c]).0 == id
                        && forall|q: int| 0 <= q < c ==> (#[trigger] self.repositories@[q]).0 != id;
                    assert(self.repositories@[p as int].0 == id);
                    if c != p {
                        if c < p {
                            assert(self.repositories@[c].0 != id);
                        } else {
                            assert(self.repositories@[p as int].0 != id);
                        }
                    }
                }
                self.repositories.remove(p);
                changes.push(RepositoryChange::Close { id });
            }
            j = j + 1;
        }
        (changes, events)
    }
}

/// The remote a permalink points into: the upstream's remote of the current
/// branch, else `origin`.
pub fn permalink_remote_name(upstream_remote: Option<String>) -> (r: String)
    ensures
        r@ == match upstream_remote {
            Some(n) => n@,
            None => "origin"@,
        },
{
    match upstream_remote {
        Some(n) => n,
        None => owned("origin"),
    }
}

/// Where a permalink to lines of a file comes from.
#[derive(Debug)]
pub enum PermalinkSource {
    /// The file's repository, through this remote.
    Repository { remote: String },
    /// The crate metadata of a Rust source in the Cargo registry.
    CargoRegistry,
    /// Nowhere: the file has no permalink.
    Unavailable,
}

/// Where a permalink comes from: a file in a repository links through the
/// upstream remote of the current branch (else `origin`); a Rust file
/// outside any repository, whose absolute path is known, through its
/// crate's metadata; any other file has none.
pub fn permalink_source(in_repository: bool, upstream_remote: Option<String>, is_rust: bool, has_abs_path: bool) -> (r: PermalinkSource)
    ensures
        if in_repository {
            r matches PermalinkSource::Repository { remote } && remote@ == match upstream_remote {
                Some(n) => n@,
                None => "origin"@,
            }
        } else if is_rust && has_abs_path {
            r is CargoRegistry
        } else {
            r is Unavailable
        },
{
    if in_repository {
        PermalinkSource::Repository { remote: permalink_remote_name(upstream_remote) }
    } else if is_rust && has_abs_path {
        PermalinkSource::CargoRegistry
    } else {
        PermalinkSource::Unavailable
    }
}

/// The icon of a file's git status in the panel.
#[derive(Debug, Clone, Copy, PartialEq, Eq, Structural)]
pub enum GitStatusIcon {
    /// In conflict.
    Warning,
    /// Deleted.
    SquareMinus,
    /// Modified.
    SquareDot,
    /// Anything else: added.
    SquarePlus,
}

/// The icon of a status: conflict first, then deletion, then modification,
/// else addition.
pub fn git_status_icon(is_conflicted: bool, is_deleted: bool, is_modified: bool) -> (r: GitStatusIcon)
    ensures
        r == if is_conflicted {
            GitStatusIcon::Warning
        } else if is_deleted {
            GitStatusIcon::SquareMinus
        } else if is_modified {
            GitStatusIcon::SquareDot
        } else {
            GitStatusIcon::SquarePlus
        },
{
    if is_conflicted {
        GitStatusIcon::Warning
    } else if is_deleted {
        GitStatusIcon::SquareMinus
    } else if is_modified {
        GitStatusIcon::SquareDot
    } else {
        GitStatusIcon::SquarePlus
    }
}

/// The rename that confirming the rename-branch dialog asks for: none where
/// the new name is empty or the current one.
pub fn branch_rename_request(current_branch: &str, new_name: &str) -> (r: Option<(String, String)>)
    ensures
        if new_name@.len() == 0 || new_name@ == current_branch@ {
            r is None
        } else {
            r matches Some((a, b)) && a@ == current_branch@ && b@ == new_name@
        },
{
    if new_name.unicode_len() == 0 || str_eq(new_name, current_branch) {
        None
    } else {
        Some((owned(current_branch), owned(new_name)))
    }
}

/// The headline of the rename-branch dialog: `Rename Branch (<current>)`.
pub fn rename_branch_headline(current_branch: &str) -> (r: String)
    ensures
        r@ == "Rename Branch ("@ + current_branch@ + ")"@,
{
    let t = chars_concat(chars_of("Rename Branch (").as_slice(), chars_of(current_branch).as_slice());
    let t = chars_concat(t.as_slice(), chars_of(")").as_slice());
    string_of(t.as_slice())
}

/// The outcome of a rename: the repository's answer, or, where the job was
/// dropped before answering, that the operation was canceled.
pub fn rename_outcome(answer: Option<Result<(), String>>) -> (r: Result<(), String>)
    ensures
        match answer {
            Some(Ok(())) => r is Ok,
            Some(Err(e)) => r matches Err(m) && m@ == e@,
            None => r matches Err(m) && m@ == "Operation was canceled"@,
        },
{
    match answer {
        Some(Ok(())) => Ok(()),
        Some(Err(e)) => Err(e),
        None => Err(owned("Operation was canceled")),
    }
}

/// Whether `j` is the first position of the text `t` among `v`.
pub open spec fn is_first_position(v: Seq<String>, t: Seq<char>, j: int) -> bool {
    0 <= j < v.len() && v[j]@ == t && forall|q: int| 0 <= q < j ==> (#[trigger] v[q])@ != t
}

/// The first position of a text among strings.
fn text_position(v: &Vec<String>, t: &str) -> (r: Option<usize>)
    ensures
        match r {
            None => !texts_contain(v@, t@),
            Some(j) => is_first_position(v@, t@, j as int),
        },
{
    let mut j: usize = 0;
    while j < v.len()
        invariant
            j <= v@.len(),
            forall|q: int| 0 <= q < j ==> (#[trigger] v@[q])@ != t@,
        decreases v@.len() - j,
    {
        if str_eq(v[j].as_str(), t) {
            return Some(j);
        }
        j = j + 1;
    }
    None
}

/// The positions, among the first `k` work directories of the left
/// checkpoint, of those a repository is known for, in order.
pub open spec fn compared_positions(left: Seq<String>, repository_dirs: Seq<String>, k: int) -> Seq<int>
    decreases k,
{
    if k <= 0 {
        Seq::empty()
    } else if texts_contain(repository_dirs, left[k - 1]@) {
        compared_positions(left, repository_dirs, k - 1).push(k - 1)
    } else {
        compared_positions(left, repository_dirs, k - 1)
    }
}

/// What comparing two checkpoints, each a checkpoint per work directory,
/// asks for: none where the two do not cover the same work directories (a
/// directory of either one has no checkpoint in the other, so they differ);
/// else, for each work directory of the left one that a repository is known
/// for, in order, its position on the left and the first position of the
/// same directory on the right, whose checkpoints that repository compares.
pub fn checkpoint_comparisons(
    left_dirs: &Vec<String>,
    right_dirs: &Vec<String>,
    repository_dirs: &Vec<String>,
) -> (r: Option<Vec<(usize, usize)>>)
    ensures
        r is None <==> (exists|i: int| 0 <= i < left_dirs@.len() && !texts_contain(right_dirs@, (#[trigger] left_dirs@[i])@))
            || (exists|j: int| 0 <= j < right_dirs@.len() && !texts_contain(left_dirs@, (#[trigger] right_dirs@[j])@)),
        r matches Some(pairs) ==> {
            &&& pairs@.map_values(|p: (usize, usize)| p.0 as int) == compared_positions(
                left_dirs@,
                repository_dirs@,
                left_dirs@.len() as int,
            )
            &&& forall|k: int| 0 <= k < pairs@.len() ==> (#[trigger] pairs@[k]).0 < left_dirs@.len()
                && is_first_position(right_dirs@, left_dirs@[pairs@[k].0 as int]@, pairs@[k].1 as int)
        },
{
    let mut pairs: Vec<(usize, usize)> = Vec::new();
    let mut i: usize = 0;
    while i < left_dirs.len()
        invariant
            i <= left_dirs@.len(),
            forall|a: int| 0 <= a < i ==> texts_contain(right_dirs@, (#[trigger] left_dirs@[a])@),
            pairs@.map_values(|p: (usize, usize)| p.0 as int) == compared_positions(left_dirs@, repository_dirs@, i as int),
            forall|k: int| 0 <= k < pairs@.len() ==> (#[trigger] pairs@[k]).0 < i
                && is_first_position(right_dirs@, left_dirs@[pairs@[k].0 as int]@, pairs@[k].1 as int),
        decreases left_dirs@.len() - i,
    {
        match text_position(right_dirs, left_dirs[i].as_str()) {
            None => {
                return None;
            },
            Some(j) => {
                let ghost before = pairs@.map_values(|p: (usize, usize)| p.0 as int);
                if strings_contain(repository_dirs, left_dirs[i].as_str()) {
                    pairs.push((i, j));
                    assert(pairs@.map_values(|p: (usize, usize)| p.0 as int) =~= before.push(i as int));
                }
                assert(texts_contain(right_dirs@, left_dirs@[i as int]@)) by {
                    assert(right_dirs@[j as int]@ == left_dirs@[i as int]@);
                }
            },
        }
        i = i + 1;
    }
    let mut j: usize = 0;
    while j < right_dirs.len()
        invariant
            j <= right_dirs@.len(),
            forall|b: int| 0 <= b < j ==> texts_contain(left_dirs@, (#[trigger] right_dirs@[b])@),
        decreases right_dirs@.len() - j,
    {
        if !strings_contain(left_dirs, right_dirs[j].as_str()) {
            return None;
        }
        j = j + 1;
    }
    Some(pairs)
}

/// Whether two checkpoints are equal: they cover the same work directories
/// (`checkpoint_comparisons` gave comparisons to make), and every comparison
/// made found the two equal.
pub fn checkpoints_equal(results: Option<Vec<bool>>) -> (r: bool)
    ensures
        r == (results is Some && forall|k: int| 0 <= k < results->0@.len() ==> results->0@[k]),
{
    match results {
        None => false,
        Some(v) => {
            assert(v@ == results->0@);
            let mut i: usize = 0;
            while i < v.len()
                invariant
                    v@ == results->0@,
                    i <= v@.len(),
                    forall|k: int| 0 <= k < i ==> v@[k],
                decreases v@.len() - i,
            {
                if !v[i] {
                    assert(!results->0@[i as int]);
                    return false;
                }
                i = i + 1;
            }
            true
        },
    }
}

/// What the git UI registers on a new workspace: its views and pickers,
/// and then the actions that change the repository or start git flows.
#[derive(Debug, Clone, Copy, PartialEq, Eq, Structural)]
pub enum GitWorkspaceRegistration {
    ProjectDiff,
    CommitModal,
    GitPanel,
    RepositorySelector,
    BranchPicker,
    StashPicker,
    StashAll,
    StashPop,
    StashApply,
    StageAll,
    UnstageAll,
    Uncommit,
    HideOnboardingFromPalette,
    OpenGitIntegrationOnboarding,
    ResetOnboarding,
    Init,
    OpenModifiedFiles,
    RenameBranch,
    DiffClipboardWithSelection,
    FileHistory,
}

/// The views and pickers registered on every workspace, in order.
pub open spec fn always_registered() -> Seq<GitWorkspaceRegistration> {
    seq![GitWorkspaceRegistration::ProjectDiff, GitWorkspaceRegistration::CommitModal, GitWorkspaceRegistration::GitPanel, GitWorkspaceRegistration::RepositorySelector, GitWorkspaceRegistration::BranchPicker, GitWorkspaceRegistration::StashPicker]
}

/// The actions registered only on a project that is not read-only, in order
/// (hiding the onboarding action from the command palette among them).
pub open spec fn write_registrations() -> Seq<GitWorkspaceRegistration> {
    seq![GitWorkspaceRegistration::StashAll, GitWorkspaceRegistration::StashPop, GitWorkspaceRegistration::StashApply, GitWorkspaceRegistration::StageAll, GitWorkspaceRegistration::UnstageAll, GitWorkspaceRegistration::Uncommit, GitWorkspaceRegistration::HideOnboardingFromPalette, GitWorkspaceRegistration::OpenGitIntegrationOnboarding, GitWorkspaceRegistration::ResetOnboarding, GitWorkspaceRegistration::Init, GitWorkspaceRegistration::OpenModifiedFiles, GitWorkspaceRegistration::RenameBranch, GitWorkspaceRegistration::DiffClipboardWithSelection, GitWorkspaceRegistration::FileHistory]
}

/// What the git UI registers on a new workspace, in order: the views and
/// pickers always, then the repository-changing actions unless the project
/// is read-only.
pub fn git_workspace_registrations(is_read_only: bool) -> (r: Vec<GitWorkspaceRegistration>)
    ensures
        r@ == if is_read_only {
            always_registered()
        } else {
            always_registered() + write_registrations()
        },
{
    let mut r: Vec<GitWorkspaceRegistration> = Vec::new();
    r.push(GitWorkspaceRegistration::ProjectDiff);
    r.push(GitWorkspaceRegistration::CommitModal);
    r.push(GitWorkspaceRegistration::GitPanel);
    r.push(GitWorkspaceRegistration::RepositorySelector);
    r.push(GitWorkspaceRegistration::BranchPicker);
    r.push(GitWorkspaceRegistration::StashPicker);
    assert(r@ =~= always_registered());
    if !is_read_only {
        r.push(GitWorkspaceRegistration::StashAll);
        r.push(GitWorkspaceRegistration::StashPop);
        r.push(GitWorkspaceRegistration::StashApply);
        r.push(GitWorkspaceRegistration::StageAll);
        r.push(GitWorkspaceRegistration::UnstageAll);
        r.push(GitWorkspaceRegistration::Uncommit);
        r.push(GitWorkspaceRegistration::HideOnboardingFromPalette);
        r.push(GitWorkspaceRegistration::OpenGitIntegrationOnboarding);
        r.push(GitWorkspaceRegistration::ResetOnboarding);
        r.push(GitWorkspaceRegistration::Init);
        r.push(GitWorkspaceRegistration::OpenModifiedFiles);
        r.push(GitWorkspaceRegistration::RenameBranch);
        r.push(GitWorkspaceRegistration::DiffClipboardWithSelection);
        r.push(GitWorkspaceRegistration::FileHistory);
        assert(r@ =~= always_registered() + write_registrations());
    }
    r
}

} // verus!
