//! Task variables and how the task store combines them, and how raw task
//! files are handed to the task inventory.
use vstd::prelude::*;
use crate::text::{chars_of, opt_view, str_eq, string_of, trim, trim_chars};

verus! {

/// Task variables: names with their values, each name once.
#[derive(Debug)]
pub struct TaskVariables {
    pub entries: Vec<(String, String)>,
}

/// The names and values of an entry list, as plain text.
pub open spec fn entries_view(e: Seq<(String, String)>) -> Seq<(Seq<char>, Seq<char>)> {
    e.map_values(|p: (String, String)| (p.0@, p.1@))
}

/// No name occurs twice.
pub open spec fn names_distinct(e: Seq<(Seq<char>, Seq<char>)>) -> bool {
    forall|i: int, j: int| 0 <= i < j < e.len() ==> (#[trigger] e[i]).0 != (#[trigger] e[j]).0
}

/// The map from names to values of an entry list with distinct names.
pub open spec fn entries_map(e: Seq<(Seq<char>, Seq<char>)>) -> Map<Seq<char>, Seq<char>>
    decreases e.len(),
{
    if e.len() == 0 {
        Map::empty()
    } else {
        entries_map(e.drop_last()).insert(e.last().0, e.last().1)
    }
}

proof fn lemma_entries_map_lookup(e: Seq<(Seq<char>, Seq<char>)>, i: int)
    requires
        names_distinct(e),
        0 <= i < e.len(),
    ensures
        entries_map(e).contains_key(e[i].0),
        entries_map(e)[e[i].0] == e[i].1,
    decreases e.len(),
{
    if i < e.len() - 1 {
        let d = e.drop_last();
        assert(d[i] == e[i]);
        assert(names_distinct(d)) by {
            assert forall|a: int, b: int| 0 <= a < b < d.len() implies (#[trigger] d[a]).0 != (#[trigger] d[b]).0 by {
                assert(d[a] == e[a] && d[b] == e[b]);
            }
        }
        lemma_entries_map_lookup(d, i);
        assert(e[i].0 != e.last().0);
    }
}

proof fn lemma_entries_map_absent(e: Seq<(Seq<char>, Seq<char>)>, k: Seq<char>)
    requires
        forall|i: int| 0 <= i < e.len() ==> (#[trigger] e[i]).0 != k,
    ensures
        !entries_map(e).contains_key(k),
    decreases e.len(),
{
    if e.len() > 0 {
        lemma_entries_map_absent(e.drop_last(), k);
        assert(e.last() == e[e.len() - 1]);
    }
}

proof fn lemma_entries_map_keys(e: Seq<(Seq<char>, Seq<char>)>, k: Seq<char>)
    requires
        entries_map(e).contains_key(k),
    ensures
        exists|i: int| 0 <= i < e.len() && (#[trigger] e[i]).0 == k,
    decreases e.len(),
{
    if e.len() > 0 && e.last().0 != k {
        lemma_entries_map_keys(e.drop_last(), k);
        let i = choose|i: int| 0 <= i < e.drop_last().len() && (#[trigger] e.drop_last()[i]).0 == k;
        assert(e[i] == e.drop_last()[i]);
    } else if e.len() > 0 {
        assert(e[e.len() - 1].0 == k);
    }
}

impl TaskVariables {
    /// The entries as plain text.
    pub open spec fn view_entries(&self) -> Seq<(Seq<char>, Seq<char>)> {
        entries_view(self.entries@)
    }

    /// Each name once.
    pub open spec fn well_formed(&self) -> bool {
        names_distinct(self.view_entries())
    }

    /// The variables as a map from names to values.
    pub open spec fn as_map(&self) -> Map<Seq<char>, Seq<char>> {
        entries_map(self.view_entries())
    }

    /// No variables.
    pub fn new() -> (r: TaskVariables)
        ensures
            r.well_formed(),
            r.as_map() == Map::<Seq<char>, Seq<char>>::empty(),
    {
        let r = TaskVariables { entries: Vec::new() };
        assert(r.view_entries() =~= Seq::<(Seq<char>, Seq<char>)>::empty());
        r
    }

    /// The position of a name.
    fn position(&self, name: &str) -> (r: Option<usize>)
        requires
            self.well_formed(),
        ensures
            match r {
                Some(i) => i < self.entries@.len() && self.view_entries()[i as int].0 == name@,
                None => forall|i: int| 0 <= i < self.view_entries().len() ==> (#[trigger] self.view_entries()[i]).0 != name@,
            },
    {
        let mut i: usize = 0;
        while i < self.entries.len()
            invariant
                i <= self.entries@.len(),
                forall|k: int| 0 <= k < i ==> (#[trigger] self.view_entries()[k]).0 != name@,
            decreases self.entries@.len() - i,
        {
            if str_eq(self.entries[i].0.as_str(), name) {
                return Some(i);
            }
            i = i + 1;
        }
        None
    }

    /// The value of a name.
    pub fn get(&self, name: &str) -> (r: Option<String>)
        requires
            self.well_formed(),
        ensures
            match r {
                Some(v) => self.as_map().contains_key(name@) && self.as_map()[name@] == v@,
                None => !self.as_map().contains_key(name@),
            },
    {
        match self.position(name) {
            Some(i) => {
                proof {
                    lemma_entries_map_lookup(self.view_entries(), i as int);
                }
                Some(self.entries[i].1.clone())
            },
            None => {
                proof {
                    lemma_entries_map_absent(self.view_entries(), name@);
                }
                None
            },
        }
    }

    /// Sets a name to a value, replacing its old value.
    pub fn insert(&mut self, name: String, value: String)
        requires
            old(self).well_formed(),
        ensures
            final(self).well_formed(),
            final(self).as_map() == old(self).as_map().insert(name@, value@),
    {
        let ghost before = self.view_entries();
        match self.position(name.as_str()) {
            Some(i) => {
                let ghost k = name@;
                let ghost v = value@;
                self.entries.set(i, (name, value));
                let ghost after = self.view_entries();
                assert(after =~= before.update(i as int, (k, v)));
                assert(names_distinct(after)) by {
                    assert forall|a: int, b: int| 0 <= a < b < after.len() implies (#[trigger] after[a]).0 != (#[trigger] after[b]).0 by {
                        if a != i && b != i {
                            assert(after[a] == before[a] && after[b] == before[b]);
                        } else if a == i {
                            assert(after[b] == before[b]);
                            assert(before[a].0 != before[b].0);
                        } else {
                            assert(after[a] == before[a]);
                            assert(before[a].0 != before[b].0);
                        }
                    }
                }
                assert(entries_map(after) =~= entries_map(before).insert(k, v)) by {
                    assert forall|key: Seq<char>| #[trigger] entries_map(after).contains_key(key) <==> entries_map(before).insert(k, v).contains_key(key) by {
                        if entries_map(after).contains_key(key) {
                            lemma_entries_map_keys(after, key);
                            let j = choose|j: int| 0 <= j < after.len() && (#[trigger] after[j]).0 == key;
                            if j != i {
                                assert(after[j] == before[j]);
                                lemma_entries_map_lookup(before, j);
                            }
                        }
                        if key == k {
                            lemma_entries_map_lookup(after, i as int);
                        }
                        if entries_map(before).insert(k, v).contains_key(key) && key != k {
                            lemma_entries_map_keys(before, key);
                            let j = choose|j: int| 0 <= j < before.len() && (#[trigger] before[j]).0 == key;
                            assert(j != i);
                            assert(after[j] == before[j]);
                            lemma_entries_map_lookup(after, j);
                        }
                    }
                    assert forall|key: Seq<char>| #[trigger] entries_map(after).contains_key(key) implies entries_map(after)[key] == entries_map(before).insert(k, v)[key] by {
                        lemma_entries_map_keys(after, key);
                        let j = choose|j: int| 0 <= j < after.len() && (#[trigger] after[j]).0 == key;
                        lemma_entries_map_lookup(after, j);
                        if j != i {
                            assert(after[j] == before[j]);
                            lemma_entries_map_lookup(before, j);
                        }
                    }
                }
            },
            None => {
                let ghost k = name@;
                let ghost v = value@;
                self.entries.push((name, value));
                let ghost after = self.view_entries();
                assert(after =~= before.push((k, v)));
                assert(after.drop_last() =~= before);
                assert(names_distinct(after)) by {
                    assert forall|a: int, b: int| 0 <= a < b < after.len() implies (#[trigger] after[a]).0 != (#[trigger] after[b]).0 by {
                        if b < before.len() {
                            assert(after[a] == before[a] && after[b] == before[b]);
                        } else {
                            assert(after[a] == before[a]);
                        }
                    }
                }
            },
        }
    }

    /// Adds the other variables, whose values win where a name is in both.
    pub fn extend(&mut self, other: TaskVariables)
        requires
            old(self).well_formed(),
        ensures
            final(self).well_formed(),
            final(self).as_map() == old(self).as_map().union_prefer_right(other.as_map()),
    {
        let ghost start = self.as_map();
        let ghost ov = other.view_entries();
        assert(ov.len() == other.entries@.len());
        let mut rest = other.entries;
        let mut taken: Vec<(String, String)> = Vec::new();
        // take the entries from the back, then insert them front to back
        while rest.len() > 0
            invariant
                entries_view(rest@) + entries_view(taken@).reverse() == ov,
            decreases rest@.len(),
        {
            let ghost r0 = entries_view(rest@);
            let ghost t0 = entries_view(taken@);
            let e = rest.pop().unwrap();
            let ghost ev = (e.0@, e.1@);
            taken.push(e);
            assert(entries_view(rest@) =~= r0.drop_last());
            assert(entries_view(taken@) =~= t0.push(ev));
            assert(entries_view(taken@).reverse() =~= seq![ev] + t0.reverse());
            assert(r0 =~= entries_view(rest@).push(ev));
            assert(entries_view(rest@) + entries_view(taken@).reverse() =~= r0 + t0.reverse());
        }
        assert(entries_view(rest@) =~= Seq::<(Seq<char>, Seq<char>)>::empty());
        assert(entries_view(taken@).reverse() =~= ov);
        assert(ov.len() == entries_view(taken@).reverse().len());
        assert(ov.len() == taken@.len());
        let total = taken.len();
        assert(ov.len() == total);
        let mut done: usize = 0;
        while taken.len() > 0
            invariant
                self.well_formed(),
                ov.len() <= usize::MAX,
                done <= ov.len(),
                entries_view(taken@).reverse() == ov.subrange(done as int, ov.len() as int),
                self.as_map() == start.union_prefer_right(entries_map(ov.subrange(0, done as int))),
            decreases taken@.len(),
        {
            let ghost t0 = entries_view(taken@);
            assert(t0.reverse().len() == t0.len());
            assert(t0.len() == ov.len() - done);
            let e = taken.pop().unwrap();
            let ghost ev = (e.0@, e.1@);
            assert(entries_view(taken@) =~= t0.drop_last());
            assert(t0.reverse()[0] == ev);
            assert(ov[done as int] == ev) by {
                assert(ov.subrange(done as int, ov.len() as int)[0] == ov[done as int]);
            }
            assert(entries_view(taken@).reverse() =~= ov.subrange(done + 1, ov.len() as int)) by {
                assert(t0.drop_last().reverse() =~= t0.reverse().drop_first());
                assert(ov.subrange(done as int, ov.len() as int).drop_first() =~= ov.subrange(done + 1, ov.len() as int));
            }
            assert(ov.subrange(0, done + 1).drop_last() =~= ov.subrange(0, done as int));
            self.insert(e.0, e.1);
            assert(start.union_prefer_right(entries_map(ov.subrange(0, done + 1))) =~= start.union_prefer_right(
                entries_map(ov.subrange(0, done as int)),
            ).insert(ev.0, ev.1));
            done = done + 1;
        }
        assert(done == ov.len());
        assert(ov.subrange(0, ov.len() as int) =~= ov);
    }
}

/// The task variables of a location: the captured ones, overridden by the
/// baseline context, overridden in turn by the language's context where it
/// has one.
pub fn combine_task_variables(
    captured_variables: TaskVariables,
    baseline: TaskVariables,
    language_context: Option<TaskVariables>,
) -> (r: TaskVariables)
    requires
        captured_variables.well_formed(),
    ensures
        r.well_formed(),
        r.as_map() == match language_context {
            Some(l) => captured_variables.as_map().union_prefer_right(baseline.as_map()).union_prefer_right(l.as_map()),
            None => captured_variables.as_map().union_prefer_right(baseline.as_map()),
        },
{
    let mut vars = captured_variables;
    vars.extend(baseline);
    if let Some(l) = language_context {
        vars.extend(l);
    }
    vars
}

/// A raw task file as the inventory takes it: trimmed, and none where it is
/// blank.
pub open spec fn normalized_json(raw: Option<Seq<char>>) -> Option<Seq<char>> {
    match raw {
        Some(j) => if trim(j).len() > 0 {
            Some(trim(j))
        } else {
            None
        },
        None => None,
    }
}

/// A raw task or debug-scenario file as the inventory takes it, as
/// `normalized_json` describes.
pub fn normalized_tasks_json(raw: Option<&str>) -> (r: Option<String>)
    ensures
        opt_view(r) == normalized_json(
            match raw {
                Some(j) => Some(j@),
                None => None,
            },
        ),
{
    match raw {
        Some(j) => {
            let c = chars_of(j);
            let t = trim_chars(c.as_slice());
            if t.len() > 0 {
                Some(string_of(t.as_slice()))
            } else {
                None
            }
        },
        None => None,
    }
}

/// A task store: a working one, or one that does nothing.
#[derive(Debug, Clone, Copy, PartialEq, Eq, Structural)]
pub enum TaskStore {
    Functional,
    Noop,
}

impl TaskStore {
    /// What updating the user's tasks hands to the inventory: nothing for a
    /// store that does nothing; else the file as `normalized_json` describes.
    pub fn update_user_tasks(&self, raw_tasks_json: Option<&str>) -> (r: Option<Option<String>>)
        ensures
            match *self {
                TaskStore::Noop => r is None,
                TaskStore::Functional => r matches Some(j) && opt_view(j) == normalized_json(
                    match raw_tasks_json {
                        Some(j) => Some(j@),
                        None => None,
                    },
                ),
            },
    {
        match self {
            TaskStore::Noop => None,
            TaskStore::Functional => Some(normalized_tasks_json(raw_tasks_json)),
        }
    }

    /// What updating the user's debug scenarios hands to the inventory, as
    /// for tasks.
    pub fn update_user_debug_scenarios(&self, raw_tasks_json: Option<&str>) -> (r: Option<Option<String>>)
        ensures
            match *self {
                TaskStore::Noop => r is None,
                TaskStore::Functional => r matches Some(j) && opt_view(j) == normalized_json(
                    match raw_tasks_json {
                        Some(j) => Some(j@),
                        None => None,
                    },
                ),
            },
    {
        self.update_user_tasks(raw_tasks_json)
    }
}

/// The root a task runs against: the worktree of the buffer's file, else
/// the first visible worktree.
pub fn worktree_root(file_worktree_path: Option<String>, first_visible_worktree_path: Option<String>) -> (r: Option<String>)
    ensures
        opt_view(r) == match file_worktree_path {
            Some(p) => Some(p@),
            None => opt_view(first_visible_worktree_path),
        },
{
    match file_worktree_path {
        Some(p) => Some(p),
        None => first_visible_worktree_path,
    }
}

} // verus!
