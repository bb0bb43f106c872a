//! The queue of a repository's git jobs.  A job may carry a key; a keyed job
//! with a later job of the same key in the queue is dropped, since the later
//! one does the same work on newer state.
use vstd::prelude::*;
use crate::text::str_eq;

verus! {

/// What a keyed job does: write a file's index text, reload the diff bases
/// of open buffers, refresh file statuses, or rescan the repository.
#[derive(Debug)]
pub enum GitJobKey {
    WriteIndex(String),
    ReloadBufferDiffBases,
    RefreshStatuses,
    ReloadGitState,
}

/// A job key as a plain value.
pub enum GitJobKeyView {
    WriteIndex(Seq<char>),
    ReloadBufferDiffBases,
    RefreshStatuses,
    ReloadGitState,
}

impl View for GitJobKey {
    type V = GitJobKeyView;

    open spec fn view(&self) -> GitJobKeyView {
        match self {
            GitJobKey::WriteIndex(p) => GitJobKeyView::WriteIndex(p@),
            GitJobKey::ReloadBufferDiffBases => GitJobKeyView::ReloadBufferDiffBases,
            GitJobKey::RefreshStatuses => GitJobKeyView::RefreshStatuses,
            GitJobKey::ReloadGitState => GitJobKeyView::ReloadGitState,
        }
    }
}

/// Whether two job keys are the same.
pub fn job_keys_equal(a: &GitJobKey, b: &GitJobKey) -> (r: bool)
    ensures
        r == (a@ == b@),
{
    match (a, b) {
        (GitJobKey::WriteIndex(x), GitJobKey::WriteIndex(y)) => str_eq(x.as_str(), y.as_str()),
        (GitJobKey::ReloadBufferDiffBases, GitJobKey::ReloadBufferDiffBases) => true,
        (GitJobKey::RefreshStatuses, GitJobKey::RefreshStatuses) => true,
        (GitJobKey::ReloadGitState, GitJobKey::ReloadGitState) => true,
        _ => false,
    }
}

/// An optional key as a plain value.
pub open spec fn key_view(k: Option<GitJobKey>) -> Option<GitJobKeyView> {
    match k {
        Some(k) => Some(k@),
        None => None,
    }
}

/// The keys of queued jobs, in queue order.
pub open spec fn queue_keys<J>(jobs: Seq<(Option<GitJobKey>, J)>) -> Seq<Option<GitJobKeyView>> {
    jobs.map_values(|e: (Option<GitJobKey>, J)| key_view(e.0))
}

/// Whether the job at `i` carries a key that a later job carries too.
pub open spec fn superseded(keys: Seq<Option<GitJobKeyView>>, i: int) -> bool {
    keys[i] is Some && exists|j: int| i < j < keys.len() && keys[j] == keys[i]
}

/// The jobs of a repository waiting to run, in the order they were sent.
pub struct GitJobQueue<J> {
    pub jobs: Vec<(Option<GitJobKey>, J)>,
}

impl<J> GitJobQueue<J> {
    /// An empty queue.
    pub fn new() -> (r: Self)
        ensures
            r.jobs@.len() == 0,
    {
        GitJobQueue { jobs: Vec::new() }
    }

    /// Queues a job behind those already waiting.
    pub fn push(&mut self, key: Option<GitJobKey>, job: J)
        ensures
            final(self).jobs@ == old(self).jobs@.push((key, job)),
    {
        self.jobs.push((key, job));
    }

    /// Whether a job after the first one in the queue carries `key`.
    fn later_job_has_key(&self, key: &GitJobKey) -> (r: bool)
        ensures
            r == exists|j: int| 0 <= j < self.jobs@.len() && queue_keys(self.jobs@)[j] == Some(key@),
    {
        let ghost ks = queue_keys(self.jobs@);
        let mut i: usize = 0;
        while i < self.jobs.len()
            invariant
                ks == queue_keys(self.jobs@),
                i <= self.jobs@.len(),
                forall|j: int| 0 <= j < i ==> ks[j] != Some(key@),
            decreases self.jobs@.len() - i,
        {
            match &self.jobs[i].0 {
                Some(k) => {
                    if job_keys_equal(k, key) {
                        assert(ks[i as int] == Some(key@));
                        return true;
                    }
                },
                None => {},
            }
            assert(ks[i as int] != Some(key@));
            i = i + 1;
        }
        false
    }

    /// Takes the next job to run: the first one in the queue whose key no
    /// later job carries.  The jobs before it are dropped; `None` when the
    /// queue is empty.
    pub fn next_job(&mut self) -> (r: Option<J>)
        ensures
            match r {
                None => old(self).jobs@.len() == 0 && final(self).jobs@.len() == 0,
                Some(job) => exists|n: int|
                    #![trigger old(self).jobs@[n]]
                    0 <= n < old(self).jobs@.len() && !superseded(queue_keys(old(self).jobs@), n) && (forall|k: int|
                        0 <= k < n ==> superseded(queue_keys(old(self).jobs@), k)) && old(self).jobs@[n].1 == job
                        && final(self).jobs@ == old(self).jobs@.skip(n + 1),
            },
    {
        let ghost all = self.jobs@;
        let ghost ks = queue_keys(all);
        let ghost mut n: int = 0;
        while self.jobs.len() > 0
            invariant
                all == old(self).jobs@,
                0 <= n <= all.len(),
                ks == queue_keys(all),
                self.jobs@ == all.skip(n),
                forall|k: int| 0 <= k < n ==> superseded(ks, k),
            decreases self.jobs@.len(),
        {
            let (key, job) = self.jobs.remove(0);
            proof {
                assert(all[n] == (key, job));
                assert(self.jobs@ =~= all.skip(n + 1));
                assert(ks[n] == key_view(key));
            }
            let dropped = match &key {
                Some(k) => self.later_job_has_key(k),
                None => false,
            };
            if dropped {
                proof {
                    let j = choose|j: int| 0 <= j < self.jobs@.len() && queue_keys(self.jobs@)[j] == ks[n];
                    assert(self.jobs@[j] == all[n + 1 + j]);
                    assert(ks[n + 1 + j] == ks[n]);
                    n = n + 1;
                }
            } else {
                proof {
                    if superseded(ks, n) {
                        let j = choose|j: int| n < j < ks.len() && ks[j] == ks[n];
                        assert(self.jobs@[j - n - 1] == all[j]);
                        assert(queue_keys(self.jobs@)[j - n - 1] == ks[j]);
                    }
                    assert(all[n].1 == job);
                }
                return Some(job);
            }
        }
        proof {
            assert(all.skip(n).len() == 0);
            if all.len() > 0 {
                assert(superseded(ks, all.len() - 1));
            }
        }
        None
    }
}

} // verus!
