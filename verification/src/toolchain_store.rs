//! The toolchains activated for paths of a project: the one that applies to
//! a path is the one set for its nearest ancestor.
use vstd::prelude::*;
use crate::text::{str_eq, strings_equal, strings_view};

verus! {

/// A toolchain of a language, such as a Python virtual environment.
#[derive(Debug)]
pub struct Toolchain {
    pub name: String,
    pub path: String,
    pub language_name: String,
}

/// A toolchain as plain text: name, path and language.
pub open spec fn toolchain_view(t: Toolchain) -> (Seq<char>, Seq<char>, Seq<char>) {
    (t.name@, t.path@, t.language_name@)
}

impl Toolchain {
    /// An equal copy.
    pub fn copy(&self) -> (r: Toolchain)
        ensures
            toolchain_view(r) == toolchain_view(*self),
    {
        Toolchain { name: self.name.clone(), path: self.path.clone(), language_name: self.language_name.clone() }
    }
}

/// What the toolchain store announces.
#[derive(Debug, Clone, Copy, PartialEq, Eq, Structural)]
pub enum ToolchainStoreEvent {
    ToolchainActivated,
}

/// A toolchain activated for a directory of a worktree, the directory given
/// by its path components below the worktree root.
#[derive(Debug)]
pub struct ActiveToolchain {
    pub worktree_id: usize,
    pub path: Vec<String>,
    pub toolchain: Toolchain,
}

/// The key of an activation: worktree, language and directory.
pub open spec fn activation_key(a: ActiveToolchain) -> (usize, Seq<char>, Seq<Seq<char>>) {
    (a.worktree_id, a.toolchain.language_name@, strings_view(a.path@))
}

/// The toolchains activated in a project, each worktree, language and
/// directory at most once.
pub struct ToolchainStore {
    pub active_toolchains: Vec<ActiveToolchain>,
}

/// The toolchain activated for exactly this worktree, language and directory.
pub open spec fn activated_at(
    entries: Seq<ActiveToolchain>,
    worktree_id: usize,
    language: Seq<char>,
    path: Seq<Seq<char>>,
) -> Option<(Seq<char>, Seq<char>, Seq<char>)> {
    if exists|i: int| 0 <= i < entries.len() && activation_key(#[trigger] entries[i]) == (worktree_id, language, path) {
        let i = choose|i: int| 0 <= i < entries.len() && activation_key(#[trigger] entries[i]) == (worktree_id, language, path);
        Some(toolchain_view(entries[i].toolchain))
    } else {
        None
    }
}

/// The toolchain that applies to a path: the one activated for the path's
/// nearest ancestor (the path itself first, up to the worktree root) among
/// its first `k` components.
pub open spec fn nearest_activated(
    entries: Seq<ActiveToolchain>,
    worktree_id: usize,
    language: Seq<char>,
    path: Seq<Seq<char>>,
    k: int,
) -> Option<(Seq<char>, Seq<char>, Seq<char>)>
    decreases k + 1,
{
    if k < 0 {
        None
    } else {
        match activated_at(entries, worktree_id, language, path.subrange(0, k)) {
            Some(t) => Some(t),
            None => nearest_activated(entries, worktree_id, language, path, k - 1),
        }
    }
}

/// A toolchain activated for a directory applies to that directory itself:
/// looking up the path that was just activated gives the toolchain back.
pub proof fn lemma_activated_applies_to_its_path(
    entries: Seq<ActiveToolchain>,
    worktree_id: usize,
    language: Seq<char>,
    path: Seq<Seq<char>>,
    t: (Seq<char>, Seq<char>, Seq<char>),
)
    requires
        activated_at(entries, worktree_id, language, path) == Some(t),
    ensures
        nearest_activated(entries, worktree_id, language, path, path.len() as int) == Some(t),
{
    assert(path.subrange(0, path.len() as int) =~= path);
}

proof fn lemma_nearest_activated_upto(
    entries: Seq<ActiveToolchain>,
    worktree_id: usize,
    language: Seq<char>,
    path: Seq<Seq<char>>,
    k: int,
)
    requires
        k <= path.len(),
    ensures
        match nearest_activated(entries, worktree_id, language, path, k) {
            None => forall|p: int| 0 <= p <= k ==> (#[trigger] activated_at(entries, worktree_id, language, path.subrange(0, p))) is None,
            Some(t) => exists|q: int| 0 <= q <= k && #[trigger] activated_at(entries, worktree_id, language, path.subrange(0, q)) == Some(t)
                && forall|p: int| q < p <= k ==> (#[trigger] activated_at(entries, worktree_id, language, path.subrange(0, p))) is None,
        },
    decreases k + 1,
{
    if k >= 0 {
        lemma_nearest_activated_upto(entries, worktree_id, language, path, k - 1);
        match activated_at(entries, worktree_id, language, path.subrange(0, k)) {
            Some(t) => {
                assert(activated_at(entries, worktree_id, language, path.subrange(0, k)) == Some(t));
            },
            None => {
                match nearest_activated(entries, worktree_id, language, path, k - 1) {
                    None => {
                        assert forall|p: int| 0 <= p <= k implies (#[trigger] activated_at(entries, worktree_id, language, path.subrange(0, p))) is None by {
                            if p < k {
                            }
                        }
                    },
                    Some(t) => {
                        let q = choose|q: int| 0 <= q <= k - 1 && #[trigger] activated_at(entries, worktree_id, language, path.subrange(0, q)) == Some(t)
                            && forall|p: int| q < p <= k - 1 ==> (#[trigger] activated_at(entries, worktree_id, language, path.subrange(0, p))) is None;
                        assert forall|p: int| q < p <= k implies (#[trigger] activated_at(entries, worktree_id, language, path.subrange(0, p))) is None by {
                            if p < k {
                            }
                        }
                    },
                }
            },
        }
    }
}

/// The toolchain that applies to a path is the one activated for its
/// nearest ancestor: where a toolchain is activated for some prefix of the
/// path (the root, the path itself, or any directory between), one applies,
/// and it is the one activated for the longest such prefix; where none is,
/// none applies.
pub proof fn lemma_nearest_activated_is_longest_activated_prefix(
    entries: Seq<ActiveToolchain>,
    worktree_id: usize,
    language: Seq<char>,
    path: Seq<Seq<char>>,
)
    ensures
        match nearest_activated(entries, worktree_id, language, path, path.len() as int) {
            None => forall|p: int| 0 <= p <= path.len() ==> (#[trigger] activated_at(entries, worktree_id, language, path.subrange(0, p))) is None,
            Some(t) => exists|q: int| 0 <= q <= path.len() && #[trigger] activated_at(entries, worktree_id, language, path.subrange(0, q)) == Some(t)
                && forall|p: int| q < p <= path.len() ==> (#[trigger] activated_at(entries, worktree_id, language, path.subrange(0, p))) is None,
        },
        forall|p: int| 0 <= p <= path.len() && (#[trigger] activated_at(entries, worktree_id, language, path.subrange(0, p))) is Some
            ==> nearest_activated(entries, worktree_id, language, path, path.len() as int) is Some,
{
    lemma_nearest_activated_upto(entries, worktree_id, language, path, path.len() as int);
}

/// Each key at most once.
pub open spec fn keys_distinct(entries: Seq<ActiveToolchain>) -> bool {
    forall|i: int, j: int| 0 <= i < j < entries.len() ==> activation_key(#[trigger] entries[i]) != activation_key(#[trigger] entries[j])
}

proof fn lemma_activated_at_index(entries: Seq<ActiveToolchain>, i: int)
    requires
        keys_distinct(entries),
        0 <= i < entries.len(),
    ensures
        activated_at(entries, entries[i].worktree_id, entries[i].toolchain.language_name@, strings_view(entries[i].path@))
            == Some(toolchain_view(entries[i].toolchain)),
{
    let key = activation_key(entries[i]);
    let j = choose|j: int| 0 <= j < entries.len() && activation_key(#[trigger] entries[j]) == key;
    if j != i {
        if j < i {
            assert(activation_key(entries[j]) != activation_key(entries[i]));
        } else {
            assert(activation_key(entries[i]) != activation_key(entries[j]));
        }
    }
}

impl ToolchainStore {
    /// Each key at most once.
    pub open spec fn well_formed(&self) -> bool {
        keys_distinct(self.active_toolchains@)
    }

    /// No toolchains activated.
    pub fn new() -> (r: ToolchainStore)
        ensures
            r.well_formed(),
            r.active_toolchains@.len() == 0,
    {
        ToolchainStore { active_toolchains: Vec::new() }
    }

    /// The position of the activation for exactly this key.
    fn position(&self, worktree_id: usize, language: &str, path: &Vec<String>) -> (r: Option<usize>)
        requires
            self.well_formed(),
        ensures
            match r {
                Some(i) => i < self.active_toolchains@.len() && activation_key(self.active_toolchains@[i as int]) == (
                    worktree_id,
                    language@,
                    strings_view(path@),
                ),
                None => forall|i: int| 0 <= i < self.active_toolchains@.len() ==> activation_key(
                    #[trigger] self.active_toolchains@[i],
                ) != (worktree_id, language@, strings_view(path@)),
            },
    {
        let mut i: usize = 0;
        while i < self.active_toolchains.len()
            invariant
                i <= self.active_toolchains@.len(),
                forall|k: int| 0 <= k < i ==> activation_key(#[trigger] self.active_toolchains@[k]) != (
                    worktree_id,
                    language@,
                    strings_view(path@),
                ),
            decreases self.active_toolchains@.len() - i,
        {
            let e = &self.active_toolchains[i];
            if e.worktree_id == worktree_id && str_eq(e.toolchain.language_name.as_str(), language)
                && strings_equal(&e.path, path) {
                return Some(i);
            }
            i = i + 1;
        }
        None
    }

    /// Activates a toolchain for a directory of a worktree, replacing the one
    /// activated there for its language; the store announces the activation.
    pub fn activate_toolchain(&mut self, worktree_id: usize, path: Vec<String>, toolchain: Toolchain) -> (event: ToolchainStoreEvent)
        requires
            old(self).well_formed(),
        ensures
            event == ToolchainStoreEvent::ToolchainActivated,
            final(self).well_formed(),
            activated_at(final(self).active_toolchains@, worktree_id, toolchain.language_name@, strings_view(path@))
                == Some(toolchain_view(toolchain)),
            forall|w: usize, l: Seq<char>, p: Seq<Seq<char>>| (w, l, p) != (worktree_id, toolchain.language_name@, strings_view(path@))
                ==> #[trigger] activated_at(final(self).active_toolchains@, w, l, p) == activated_at(old(self).active_toolchains@, w, l, p),
    {
        let ghost before = self.active_toolchains@;
        let ghost key = (worktree_id, toolchain.language_name@, strings_view(path@));
        let ghost tv = toolchain_view(toolchain);
        let pos = self.position(worktree_id, toolchain.language_name.as_str(), &path);
        let entry = ActiveToolchain { worktree_id, path, toolchain };
        assert(activation_key(entry) == key);
        match pos {
            Some(i) => {
                self.active_toolchains.set(i, entry);
                let ghost after = self.active_toolchains@;
                assert(keys_distinct(after)) by {
                    assert forall|a: int, b: int| 0 <= a < b < after.len() implies activation_key(#[trigger] after[a]) != activation_key(#[trigger] after[b]) by {
                        if a != i && b != i {
                            assert(after[a] == before[a] && after[b] == before[b]);
                        } else if a == i {
                            assert(after[b] == before[b]);
                            assert(activation_key(before[a]) != activation_key(before[b]));
                        } else {
                            assert(after[a] == before[a]);
                            assert(activation_key(before[a]) != activation_key(before[b]));
                        }
                    }
                }
                proof {
                    lemma_activated_at_index(after, i as int);
                    assert forall|w: usize, l: Seq<char>, p: Seq<Seq<char>>| (w, l, p) != key implies #[trigger] activated_at(after, w, l, p) == activated_at(before, w, l, p) by {
                        if exists|j: int| 0 <= j < after.len() && activation_key(#[trigger] after[j]) == (w, l, p) {
                            let j = choose|j: int| 0 <= j < after.len() && activation_key(#[trigger] after[j]) == (w, l, p);
                            assert(j != i);
                            assert(after[j] == before[j]);
                            lemma_activated_at_index(after, j);
                            lemma_activated_at_index(before, j);
                        } else {
                            if exists|j: int| 0 <= j < before.len() && activation_key(#[trigger] before[j]) == (w, l, p) {
                                let j = choose|j: int| 0 <= j < before.len() && activation_key(#[trigger] before[j]) == (w, l, p);
                                assert(j != i);
                                assert(after[j] == before[j]);
                            }
                        }
                    }
                }
            },
            None => {
                self.active_toolchains.push(entry);
                let ghost after = self.active_toolchains@;
                assert(keys_distinct(after)) by {
                    assert forall|a: int, b: int| 0 <= a < b < after.len() implies activation_key(#[trigger] after[a]) != activation_key(#[trigger] after[b]) by {
                        assert(after[a] == before[a]);
                        if b < before.len() {
                            assert(after[b] == before[b]);
                        }
                    }
                }
                proof {
                    lemma_activated_at_index(after, before.len() as int);
                    assert forall|w: usize, l: Seq<char>, p: Seq<Seq<char>>| (w, l, p) != key implies #[trigger] activated_at(after, w, l, p) == activated_at(before, w, l, p) by {
                        if exists|j: int| 0 <= j < after.len() && activation_key(#[trigger] after[j]) == (w, l, p) {
                            let j = choose|j: int| 0 <= j < after.len() && activation_key(#[trigger] after[j]) == (w, l, p);
                            assert(j < before.len());
                            assert(after[j] == before[j]);
                            lemma_activated_at_index(after, j);
                            lemma_activated_at_index(before, j);
                        } else {
                            if exists|j: int| 0 <= j < before.len() && activation_key(#[trigger] before[j]) == (w, l, p) {
                                let j = choose|j: int| 0 <= j < before.len() && activation_key(#[trigger] before[j]) == (w, l, p);
                                assert(after[j] == before[j]);
                            }
                        }
                    }
                }
            },
        }
        ToolchainStoreEvent::ToolchainActivated
    }

    /// The toolchain that applies to a path of a worktree for a language:
    /// the one activated for its nearest ancestor, as `nearest_activated`
    /// describes.
    pub fn active_toolchain(&self, worktree_id: usize, path: &Vec<String>, language: &str) -> (r: Option<Toolchain>)
        requires
            self.well_formed(),
        ensures
            match r {
                Some(t) => nearest_activated(self.active_toolchains@, worktree_id, language@, strings_view(path@), path@.len() as int)
                    == Some(toolchain_view(t)),
                None => nearest_activated(self.active_toolchains@, worktree_id, language@, strings_view(path@), path@.len() as int) is None,
            },
    {
        let ghost pv = strings_view(path@);
        let mut k: usize = path.len();
        let mut prefix: Vec<String> = Vec::new();
        let mut j: usize = 0;
        while j < path.len()
            invariant
                j <= path@.len(),
                prefix@ == path@.subrange(0, j as int),
            decreases path@.len() - j,
        {
            prefix.push(path[j].clone());
            j = j + 1;
        }
        assert(path@.subrange(0, path@.len() as int) =~= path@);
        loop
            invariant
                k <= path@.len(),
                pv == strings_view(path@),
                prefix@ == path@.subrange(0, k as int),
                self.well_formed(),
                nearest_activated(self.active_toolchains@, worktree_id, language@, pv, path@.len() as int)
                    == nearest_activated(self.active_toolchains@, worktree_id, language@, pv, k as int),
            decreases k,
        {
            assert(strings_view(prefix@) =~= pv.subrange(0, k as int));
            if let Some(i) = self.position(worktree_id, language, &prefix) {
                proof {
                    lemma_activated_at_index(self.active_toolchains@, i as int);
                }
                return Some(self.active_toolchains[i].toolchain.copy());
            }
            if k == 0 {
                assert(nearest_activated(self.active_toolchains@, worktree_id, language@, pv, -1) is None);
                return None;
            }
            k = k - 1;
            prefix.pop();
            assert(prefix@ =~= path@.subrange(0, k as int));
        }
    }
}

} // verus!
