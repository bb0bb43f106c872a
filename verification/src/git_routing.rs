//! Which repositories a worktree's changes concern: changed paths grouped by
//! the repository they belong to, and the repositories whose diff bases are
//! to be reloaded when the worktree's repositories change.
use vstd::prelude::*;
use crate::text::{owned, str_eq, strings_view};
use crate::git::{containing_repository, matches_update, RepositoryId, RepositoryRegistry, UpdatedGitRepository};

verus! {

/// For each path, its repository and the path below the repository's work
/// directory, where it belongs to one.
pub open spec fn path_routes(
    repos: Seq<(RepositoryId, String)>,
    abs_paths: Seq<Seq<char>>,
) -> Seq<Option<(RepositoryId, Seq<char>)>> {
    abs_paths.map_values(|p: Seq<char>| match containing_repository(repos, p, repos.len() as int) {
        Some((id, _, rel)) => Some((id, rel)),
        None => None,
    })
}

/// The position of the first group of the repository.
pub open spec fn group_index(groups: Seq<(RepositoryId, Seq<Seq<char>>)>, id: RepositoryId) -> Option<int> {
    if exists|i: int| 0 <= i < groups.len() && (#[trigger] groups[i]).0 == id {
        Some(choose|i: int| 0 <= i < groups.len() && (#[trigger] groups[i]).0 == id)
    } else {
        None
    }
}

/// The routed paths grouped by repository, each group's paths in order and
/// the groups in order of their first path.
pub open spec fn grouped_paths(routes: Seq<Option<(RepositoryId, Seq<char>)>>) -> Seq<(RepositoryId, Seq<Seq<char>>)>
    decreases routes.len(),
{
    if routes.len() == 0 {
        Seq::empty()
    } else {
        let g = grouped_paths(routes.drop_last());
        match routes.last() {
            None => g,
            Some((id, rel)) => match group_index(g, id) {
                Some(i) => g.update(i, (id, g[i].1.push(rel))),
                None => g.push((id, seq![rel])),
            },
        }
    }
}

/// Groups as plain values.
pub open spec fn groups_view(v: Seq<(RepositoryId, Vec<String>)>) -> Seq<(RepositoryId, Seq<Seq<char>>)> {
    v.map_values(|g: (RepositoryId, Vec<String>)| (g.0, strings_view(g.1@)))
}

/// Each repository has one group at most.
pub open spec fn groups_distinct(g: Seq<(RepositoryId, Seq<Seq<char>>)>) -> bool {
    forall|a: int, b: int| 0 <= a < b < g.len() ==> g[a].0 != g[b].0
}

proof fn lemma_grouped_distinct(routes: Seq<Option<(RepositoryId, Seq<char>)>>)
    ensures
        groups_distinct(grouped_paths(routes)),
    decreases routes.len(),
{
    if routes.len() > 0 {
        lemma_grouped_distinct(routes.drop_last());
    }
}

/// The position of the group of a repository, searched in order.
fn find_group(groups: &Vec<(RepositoryId, Vec<String>)>, id: RepositoryId) -> (r: Option<usize>)
    requires
        groups_distinct(groups_view(groups@)),
    ensures
        match r {
            None => group_index(groups_view(groups@), id) is None,
            Some(i) => i < groups@.len() && group_index(groups_view(groups@), id) == Some(i as int),
        },
{
    let ghost gv = groups_view(groups@);
    let mut i: usize = 0;
    while i < groups.len()
        invariant
            gv == groups_view(groups@),
            groups_distinct(gv),
            i <= gv.len(),
            forall|j: int| 0 <= j < i ==> (#[trigger] gv[j]).0 != id,
        decreases gv.len() - i,
    {
        if groups[i].0 == id {
            proof {
                assert(gv[i as int].0 == id);
                let c = choose|c: int| 0 <= c < gv.len() && (#[trigger] gv[c]).0 == id;
                if c != i {
                    if c < i {
                        assert(gv[c].0 != id);
                    } else {
                        assert(gv[i as int].0 != gv[c].0);
                    }
                }
            }
            return Some(i);
        }
        i = i + 1;
    }
    None
}

impl RepositoryRegistry {
    /// Changed paths of a worktree grouped by the repository they belong to,
    /// as `grouped_paths` describes; a path in no repository is left out.
    pub fn paths_by_repository(&self, abs_paths: &Vec<String>) -> (r: Vec<(RepositoryId, Vec<String>)>)
        ensures
            groups_view(r@) == grouped_paths(path_routes(self.repositories@, strings_view(abs_paths@))),
    {
        let ghost routes = path_routes(self.repositories@, strings_view(abs_paths@));
        let mut groups: Vec<(RepositoryId, Vec<String>)> = Vec::new();
        let mut k: usize = 0;
        while k < abs_paths.len()
            invariant
                routes == path_routes(self.repositories@, strings_view(abs_paths@)),
                k <= abs_paths@.len(),
                groups_view(groups@) == grouped_paths(routes.take(k as int)),
            decreases abs_paths@.len() - k,
        {
            proof {
                assert(routes.take(k + 1).drop_last() =~= routes.take(k as int));
                lemma_grouped_distinct(routes.take(k as int));
            }
            let ghost before = groups_view(groups@);
            match self.repository_and_path_for_abs_path(abs_paths[k].as_str()) {
                None => {
                    assert(routes[k as int] is None);
                },
                Some((id, rel)) => {
                    let ghost relv = rel@;
                    assert(routes[k as int] == Some((id, relv)));
                    match find_group(&groups, id) {
                        Some(i) => {
                            let mut entry = groups.remove(i);
                            let ghost old_paths = strings_view(entry.1@);
                            entry.1.push(rel);
                            groups.insert(i, entry);
                            proof {
                                assert(strings_view(entry.1@) =~= old_paths.push(relv));
                                assert(groups_view(groups@) =~= before.update(i as int, (id, before[i as int].1.push(relv))));
                            }
                        },
                        None => {
                            let mut v: Vec<String> = Vec::new();
                            v.push(rel);
                            groups.push((id, v));
                            proof {
                                assert(strings_view(v@) =~= seq![relv]);
                                assert(groups_view(groups@) =~= before.push((id, seq![relv])));
                            }
                        },
                    }
                },
            }
            k = k + 1;
        }
        proof {
            assert(routes.take(abs_paths@.len() as int) =~= routes);
        }
        groups
    }

    /// The repositories whose work directory a change of the worktree's
    /// repositories names (before or after it), in registry order: their
    /// diff bases are reloaded.
    pub fn repositories_to_reload(&self, updates: &Vec<UpdatedGitRepository>) -> (r: Vec<RepositoryId>)
        ensures
            r@ == reload_ids(self.repositories@, updates@, self.repositories@.len() as int),
    {
        let mut out: Vec<RepositoryId> = Vec::new();
        let mut i: usize = 0;
        while i < self.repositories.len()
            invariant
                i <= self.repositories@.len(),
                out@ == reload_ids(self.repositories@, updates@, i as int),
            decreases self.repositories@.len() - i,
        {
            let dir = self.repositories[i].1.as_str();
            let mut named = false;
            let mut j: usize = 0;
            while j < updates.len()
                invariant
                    j <= updates@.len(),
                    dir@ == self.repositories@[i as int].1@,
                    named == exists|q: int| 0 <= q < j && matches_update(dir@, #[trigger] updates@[q]),
                decreases updates@.len() - j,
            {
                let u = &updates[j];
                let old_matches = match &u.old_work_directory_abs_path {
                    Some(p) => str_eq(p.as_str(), dir),
                    None => false,
                };
                let new_matches = match &u.new_work_directory_abs_path {
                    Some(p) => str_eq(p.as_str(), dir),
                    None => false,
                };
                proof {
                    assert(matches_update(dir@, updates@[j as int]) == (old_matches || new_matches));
                }
                named = named || old_matches || new_matches;
                j = j + 1;
            }
            if named {
                out.push(self.repositories[i].0);
            }
            i = i + 1;
        }
        out
    }
}

/// The ids, among the first `k` repositories, of those whose work directory
/// one of the updates names.
pub open spec fn reload_ids(repos: Seq<(RepositoryId, String)>, updates: Seq<UpdatedGitRepository>, k: int) -> Seq<RepositoryId>
    decreases k,
{
    if k <= 0 {
        Seq::empty()
    } else {
        let r = reload_ids(repos, updates, k - 1);
        if exists|q: int| 0 <= q < updates.len() && matches_update(repos[k - 1].1@, #[trigger] updates[q]) {
            r.push(repos[k - 1].0)
        } else {
            r
        }
    }
}

} // verus!
