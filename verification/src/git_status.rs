//! Refreshing the statuses of some paths of a repository: the edits that the
//! statuses read back call for, and the statuses after them.
use vstd::prelude::*;
use crate::text::{owned, str_eq, strings_view};
use crate::git::{status_of, statuses_view, FileStatus, RepositoryEvent, RepositorySnapshot, StatusEntry};

verus! {

/// The status of a path, found from the back: that of its first entry.
pub open spec fn first_status(s: Seq<(Seq<char>, FileStatus)>, p: Seq<char>) -> Option<FileStatus>
    decreases s.len(),
{
    if s.len() == 0 {
        None
    } else {
        let f = first_status(s.drop_last(), p);
        if f is Some {
            f
        } else if s.last().0 == p {
            Some(s.last().1)
        } else {
            None
        }
    }
}

/// `status_of` and `first_status` agree.
proof fn lemma_first_status(s: Seq<(Seq<char>, FileStatus)>, p: Seq<char>)
    ensures
        status_of(s, p) == first_status(s, p),
    decreases s.len(),
{
    if s.len() > 0 {
        let d = s.drop_last();
        lemma_first_status(d, p);
        if exists|i: int| 0 <= i < d.len() && (#[trigger] d[i]).0 == p {
            let c = choose|i: int| 0 <= i < d.len() && (#[trigger] d[i]).0 == p && forall|j: int|
                0 <= j < i ==> (#[trigger] d[j]).0 != p;
            assert(exists|i: int| 0 <= i < d.len() && (#[trigger] d[i]).0 == p && forall|j: int|
                0 <= j < i ==> (#[trigger] d[j]).0 != p) by {
                let w = choose|i: int| 0 <= i < d.len() && (#[trigger] d[i]).0 == p;
                lemma_first_index_exists(d, p, w);
            }
            assert(s[c] == d[c]);
            assert forall|j: int| 0 <= j < c implies (#[trigger] s[j]).0 != p by {
                assert(s[j] == d[j]);
            }
            let cs = choose|i: int| 0 <= i < s.len() && (#[trigger] s[i]).0 == p && forall|j: int|
                0 <= j < i ==> (#[trigger] s[j]).0 != p;
            assert(s[c].0 == p);
            if cs < c {
                assert(s[cs] == d[cs]);
            } else if cs > c {
                assert(s[c].0 != p);
            }
        } else {
            if s.last().0 == p {
                assert(s[s.len() - 1].0 == p);
                let cs = choose|i: int| 0 <= i < s.len() && (#[trigger] s[i]).0 == p && forall|j: int|
                    0 <= j < i ==> (#[trigger] s[j]).0 != p;
                assert forall|j: int| 0 <= j < s.len() - 1 implies (#[trigger] s[j]).0 != p by {
                    assert(s[j] == d[j]);
                }
                if cs < s.len() - 1 {
                    assert(s[cs] == d[cs]);
                }
            } else {
                assert forall|i: int| 0 <= i < s.len() implies (#[trigger] s[i]).0 != p by {
                    if i < s.len() - 1 {
                        assert(s[i] == d[i]);
                    }
                }
            }
        }
    }
}

/// Where some entry has path `p`, a first one exists.
proof fn lemma_first_index_exists(s: Seq<(Seq<char>, FileStatus)>, p: Seq<char>, w: int)
    requires
        0 <= w < s.len(),
        s[w].0 == p,
    ensures
        exists|i: int| 0 <= i < s.len() && (#[trigger] s[i]).0 == p && forall|j: int|
            0 <= j < i ==> (#[trigger] s[j]).0 != p,
    decreases w,
{
    if exists|j: int| 0 <= j < w && (#[trigger] s[j]).0 == p {
        let j = choose|j: int| 0 <= j < w && (#[trigger] s[j]).0 == p;
        lemma_first_index_exists(s, p, j);
    } else {
        assert(forall|j: int| 0 <= j < w ==> (#[trigger] s[j]).0 != p);
    }
}

/// The statuses without the entries of path `q`.
pub open spec fn without_path(s: Seq<(Seq<char>, FileStatus)>, q: Seq<char>) -> Seq<(Seq<char>, FileStatus)>
    decreases s.len(),
{
    if s.len() == 0 {
        s
    } else {
        let r = without_path(s.drop_last(), q);
        if s.last().0 == q {
            r
        } else {
            r.push(s.last())
        }
    }
}

proof fn lemma_without_path(s: Seq<(Seq<char>, FileStatus)>, q: Seq<char>, p: Seq<char>)
    ensures
        first_status(without_path(s, q), p) == (if p == q {
            None
        } else {
            first_status(s, p)
        }),
    decreases s.len(),
{
    if s.len() > 0 {
        lemma_without_path(s.drop_last(), q, p);
        let r = without_path(s.drop_last(), q);
        if s.last().0 != q {
            assert(r.push(s.last()).drop_last() =~= r);
        }
    }
}

/// Removes the entries of path `q`.
fn remove_path(statuses: &mut Vec<StatusEntry>, q: &str)
    ensures
        statuses_view(final(statuses)@) == without_path(statuses_view(old(statuses)@), q@),
{
    let ghost sv = statuses_view(statuses@);
    let mut kept: Vec<StatusEntry> = Vec::new();
    let mut i: usize = 0;
    while i < statuses.len()
        invariant
            sv == statuses_view(statuses@),
            i <= sv.len(),
            statuses_view(kept@) == without_path(sv.take(i as int), q@),
        decreases sv.len() - i,
    {
        let e = &statuses[i];
        proof {
            assert(sv.take(i + 1).drop_last() =~= sv.take(i as int));
            assert(sv[i as int] == (e.repo_path@, e.status));
        }
        if !str_eq(e.repo_path.as_str(), q) {
            let ghost before = kept@;
            kept.push(StatusEntry { repo_path: owned(e.repo_path.as_str()), status: e.status });
            proof {
                assert(statuses_view(kept@) =~= statuses_view(before).push(sv[i as int]));
            }
        }
        i = i + 1;
    }
    proof {
        assert(sv.take(sv.len() as int) =~= sv);
    }
    *statuses = kept;
}

/// An edit of the statuses: set a path's status, or drop the path.
#[derive(Debug)]
pub enum StatusEdit {
    Insert(StatusEntry),
    Remove(String),
}

/// An edit as plain values.
pub enum StatusEditView {
    Insert(Seq<char>, FileStatus),
    Remove(Seq<char>),
}

impl View for StatusEdit {
    type V = StatusEditView;

    open spec fn view(&self) -> StatusEditView {
        match self {
            StatusEdit::Insert(e) => StatusEditView::Insert(e.repo_path@, e.status),
            StatusEdit::Remove(p) => StatusEditView::Remove(p@),
        }
    }
}

/// Edits as plain values.
pub open spec fn edits_view(e: Seq<StatusEdit>) -> Seq<StatusEditView> {
    e.map_values(|x: StatusEdit| x@)
}

/// The status of path `p` after the edits, from its status before them.
pub open spec fn status_after_edits(
    before: Option<FileStatus>,
    p: Seq<char>,
    edits: Seq<StatusEditView>,
) -> Option<FileStatus>
    decreases edits.len(),
{
    if edits.len() == 0 {
        before
    } else {
        let b = status_after_edits(before, p, edits.drop_last());
        match edits.last() {
            StatusEditView::Insert(q, st) => if q == p {
                Some(st)
            } else {
                b
            },
            StatusEditView::Remove(q) => if q == p {
                None
            } else {
                b
            },
        }
    }
}

/// Applies the edits in order.
pub fn apply_status_edits(statuses: &mut Vec<StatusEntry>, edits: &Vec<StatusEdit>)
    ensures
        forall|p: Seq<char>|
            #![trigger status_of(statuses_view(final(statuses)@), p)]
            status_of(statuses_view(final(statuses)@), p) == status_after_edits(
                status_of(statuses_view(old(statuses)@), p),
                p,
                edits_view(edits@),
            ),
{
    let ghost s0 = statuses_view(statuses@);
    let ghost ev = edits_view(edits@);
    let n = edits.len();
    let mut i: usize = 0;
    while i < n
        invariant
            n == ev.len(),
            ev == edits_view(edits@),
            i <= n,
            forall|p: Seq<char>|
                #![trigger first_status(statuses_view(statuses@), p)]
                first_status(statuses_view(statuses@), p) == status_after_edits(
                    first_status(s0, p),
                    p,
                    ev.take(i as int),
                ),
        decreases n - i,
    {
        let ghost sb = statuses_view(statuses@);
        proof {
            assert(ev.take(i + 1).drop_last() =~= ev.take(i as int));
            assert(ev[i as int] == edits@[i as int]@);
        }
        match &edits[i] {
            StatusEdit::Insert(entry) => {
                remove_path(statuses, entry.repo_path.as_str());
                let ghost sw = statuses_view(statuses@);
                let ghost q = entry.repo_path@;
                let ghost st = entry.status;
                statuses.push(StatusEntry { repo_path: owned(entry.repo_path.as_str()), status: entry.status });
                proof {
                    assert(statuses_view(statuses@) =~= sw.push((q, st)));
                    assert forall|p: Seq<char>| #[trigger] first_status(statuses_view(statuses@), p) == status_after_edits(
                        first_status(s0, p),
                        p,
                        ev.take(i + 1),
                    ) by {
                        lemma_without_path(sb, q, p);
                        assert(sw.push((q, st)).drop_last() =~= sw);
                        assert(first_status(sb, p) == status_after_edits(first_status(s0, p), p, ev.take(i as int)));
                    }
                }
            },
            StatusEdit::Remove(q) => {
                remove_path(statuses, q.as_str());
                proof {
                    assert forall|p: Seq<char>| #[trigger] first_status(statuses_view(statuses@), p) == status_after_edits(
                        first_status(s0, p),
                        p,
                        ev.take(i + 1),
                    ) by {
                        lemma_without_path(sb, q@, p);
                        assert(first_status(sb, p) == status_after_edits(first_status(s0, p), p, ev.take(i as int)));
                    }
                }
            },
        }
        i = i + 1;
    }
    proof {
        assert(ev.take(n as int) =~= ev);
        assert forall|p: Seq<char>| #![trigger status_of(statuses_view(statuses@), p)]
            status_of(statuses_view(statuses@), p) == status_after_edits(status_of(s0, p), p, ev) by {
            lemma_first_status(statuses_view(statuses@), p);
            lemma_first_status(s0, p);
            assert(first_status(statuses_view(statuses@), p) == status_after_edits(first_status(s0, p), p, ev.take(n as int)));
        }
    }
}

/// The paths of statuses read back.
pub open spec fn read_paths(read: Seq<(Seq<char>, FileStatus)>) -> Seq<Seq<char>> {
    read.map_values(|e: (Seq<char>, FileStatus)| e.0)
}

/// The edits that set each status read back that differs from the previous
/// status of its path.
pub open spec fn insert_edits(
    prev: Seq<(Seq<char>, FileStatus)>,
    read: Seq<(Seq<char>, FileStatus)>,
) -> Seq<StatusEditView>
    decreases read.len(),
{
    if read.len() == 0 {
        Seq::empty()
    } else {
        let r = insert_edits(prev, read.drop_last());
        let e = read.last();
        if status_of(prev, e.0) == Some(e.1) {
            r
        } else {
            r.push(StatusEditView::Insert(e.0, e.1))
        }
    }
}

/// The edits that drop each asked-for path that was not read back and had a
/// status.
pub open spec fn remove_edits(
    prev: Seq<(Seq<char>, FileStatus)>,
    asked: Seq<Seq<char>>,
    read: Seq<(Seq<char>, FileStatus)>,
) -> Seq<StatusEditView>
    decreases asked.len(),
{
    if asked.len() == 0 {
        Seq::empty()
    } else {
        let r = remove_edits(prev, asked.drop_last(), read);
        let p = asked.last();
        if !read_paths(read).contains(p) && status_of(prev, p) is Some {
            r.push(StatusEditView::Remove(p))
        } else {
            r
        }
    }
}

/// The edits that a refresh of the statuses of `asked` calls for, when git
/// reported `read`.
pub open spec fn refresh_edits(
    prev: Seq<(Seq<char>, FileStatus)>,
    asked: Seq<Seq<char>>,
    read: Seq<(Seq<char>, FileStatus)>,
) -> Seq<StatusEditView> {
    insert_edits(prev, read) + remove_edits(prev, asked, read)
}

/// Whether a path is among the paths of the statuses read back.
fn read_has_path(read: &Vec<StatusEntry>, p: &str) -> (r: bool)
    ensures
        r == read_paths(statuses_view(read@)).contains(p@),
{
    let ghost rp = read_paths(statuses_view(read@));
    let mut i: usize = 0;
    while i < read.len()
        invariant
            rp == read_paths(statuses_view(read@)),
            i <= read@.len(),
            forall|k: int| 0 <= k < i ==> rp[k] != p@,
        decreases read@.len() - i,
    {
        if str_eq(read[i].repo_path.as_str(), p) {
            assert(rp[i as int] == p@);
            return true;
        }
        assert(rp[i as int] == read@[i as int].repo_path@);
        i = i + 1;
    }
    false
}

/// The edits of `refresh_edits`.
pub fn status_edits(prev: &RepositorySnapshot, asked: &Vec<String>, read: &Vec<StatusEntry>) -> (r: Vec<StatusEdit>)
    ensures
        edits_view(r@) == refresh_edits(statuses_view(prev.statuses_by_path@), strings_view(asked@), statuses_view(read@)),
{
    let ghost pv = statuses_view(prev.statuses_by_path@);
    let ghost rv = statuses_view(read@);
    let ghost av = strings_view(asked@);
    let mut edits: Vec<StatusEdit> = Vec::new();
    let mut i: usize = 0;
    while i < read.len()
        invariant
            pv == statuses_view(prev.statuses_by_path@),
            rv == statuses_view(read@),
            i <= rv.len(),
            edits_view(edits@) == insert_edits(pv, rv.take(i as int)),
        decreases rv.len() - i,
    {
        let e = &read[i];
        proof {
            assert(rv.take(i + 1).drop_last() =~= rv.take(i as int));
            assert(rv[i as int] == (e.repo_path@, e.status));
        }
        let same = match prev.status_for_path(e.repo_path.as_str()) {
            Some(st) => st == e.status,
            None => false,
        };
        if !same {
            let ghost before = edits@;
            edits.push(StatusEdit::Insert(StatusEntry { repo_path: owned(e.repo_path.as_str()), status: e.status }));
            proof {
                assert(edits_view(edits@) =~= edits_view(before).push(StatusEditView::Insert(e.repo_path@, e.status)));
            }
        }
        i = i + 1;
    }
    proof {
        assert(rv.take(rv.len() as int) =~= rv);
    }
    let ghost inserts = edits_view(edits@);
    let mut j: usize = 0;
    while j < asked.len()
        invariant
            pv == statuses_view(prev.statuses_by_path@),
            rv == statuses_view(read@),
            av == strings_view(asked@),
            inserts == insert_edits(pv, rv),
            j <= av.len(),
            edits_view(edits@) == inserts + remove_edits(pv, av.take(j as int), rv),
        decreases av.len() - j,
    {
        let p = &asked[j];
        proof {
            assert(av.take(j + 1).drop_last() =~= av.take(j as int));
            assert(av[j as int] == p@);
        }
        if !read_has_path(read, p.as_str()) && prev.status_for_path(p.as_str()).is_some() {
            let ghost before = edits@;
            edits.push(StatusEdit::Remove(owned(p.as_str())));
            proof {
                assert(edits_view(edits@) =~= edits_view(before).push(StatusEditView::Remove(p@)));
            }
        }
        j = j + 1;
    }
    proof {
        assert(av.take(av.len() as int) =~= av);
    }
    edits
}

/// Refreshes the statuses of the asked-for paths from what git reported:
/// the edits of `refresh_edits` are applied and, where there are any, the
/// scan count goes up by one.  The refresh is reported as a partial update.
pub fn refresh_statuses(snapshot: &mut RepositorySnapshot, asked: &Vec<String>, read: &Vec<StatusEntry>) -> (event: RepositoryEvent)
    requires
        old(snapshot).scan_id < u64::MAX,
    ensures
        event == (RepositoryEvent::Updated { full_scan: false }),
        ({
            let edits = refresh_edits(statuses_view(old(snapshot).statuses_by_path@), strings_view(asked@), statuses_view(read@));
            &&& forall|p: Seq<char>|
                #![trigger status_of(statuses_view(final(snapshot).statuses_by_path@), p)]
                status_of(statuses_view(final(snapshot).statuses_by_path@), p) == status_after_edits(
                    status_of(statuses_view(old(snapshot).statuses_by_path@), p),
                    p,
                    edits,
                )
            &&& final(snapshot).scan_id == old(snapshot).scan_id + (if edits.len() > 0 { 1int } else { 0int })
        }),
        final(snapshot).id == old(snapshot).id,
        final(snapshot).work_directory_abs_path@ == old(snapshot).work_directory_abs_path@,
        final(snapshot).merge == old(snapshot).merge,
{
    let edits = status_edits(snapshot, asked, read);
    if edits.len() > 0 {
        apply_status_edits(&mut snapshot.statuses_by_path, &edits);
        snapshot.scan_id = snapshot.scan_id + 1;
    }
    RepositoryEvent::Updated { full_scan: false }
}

proof fn lemma_edits_concat(b: Option<FileStatus>, p: Seq<char>, x: Seq<StatusEditView>, y: Seq<StatusEditView>)
    ensures
        status_after_edits(b, p, x + y) == status_after_edits(status_after_edits(b, p, x), p, y),
    decreases y.len(),
{
    if y.len() > 0 {
        lemma_edits_concat(b, p, x, y.drop_last());
        assert((x + y).drop_last() =~= x + y.drop_last());
    }
}

proof fn lemma_insert_edits(prev: Seq<(Seq<char>, FileStatus)>, read: Seq<(Seq<char>, FileStatus)>, p: Seq<char>)
    requires
        forall|a: int, b: int| 0 <= a < b < read.len() ==> read[a].0 != read[b].0,
    ensures
        !read_paths(read).contains(p) ==> status_after_edits(status_of(prev, p), p, insert_edits(prev, read)) == status_of(prev, p),
        forall|i: int| 0 <= i < read.len() && read[i].0 == p ==> status_after_edits(status_of(prev, p), p, insert_edits(prev, read)) == Some(read[i].1),
    decreases read.len(),
{
    if read.len() > 0 {
        let d = read.drop_last();
        assert(read_paths(d) =~= read_paths(read).drop_last());
        if !read_paths(read).contains(p) {
            assert(!read_paths(d).contains(p)) by {
                if read_paths(d).contains(p) {
                    let k = choose|k: int| 0 <= k < read_paths(d).len() && read_paths(d)[k] == p;
                    assert(read_paths(read)[k] == p);
                }
            }
            assert(read_paths(read)[read.len() - 1] == read.last().0);
        }
        lemma_insert_edits(prev, d, p);
        let r = insert_edits(prev, d);
        assert forall|i: int| 0 <= i < read.len() && read[i].0 == p implies status_after_edits(status_of(prev, p), p, insert_edits(prev, read)) == Some(read[i].1) by {
            if i < read.len() - 1 {
                assert(d[i] == read[i]);
                assert(read.last().0 != p);
                assert(r.push(StatusEditView::Insert(read.last().0, read.last().1)).drop_last() =~= r);
            } else {
                assert(!read_paths(d).contains(p)) by {
                    if read_paths(d).contains(p) {
                        let k = choose|k: int| 0 <= k < read_paths(d).len() && read_paths(d)[k] == p;
                        assert(d[k] == read[k]);
                    }
                }
                assert(r.push(StatusEditView::Insert(read.last().0, read.last().1)).drop_last() =~= r);
            }
        }
        if !read_paths(read).contains(p) {
            assert(r.push(StatusEditView::Insert(read.last().0, read.last().1)).drop_last() =~= r);
        }
    }
}

proof fn lemma_remove_edits(
    prev: Seq<(Seq<char>, FileStatus)>,
    asked: Seq<Seq<char>>,
    read: Seq<(Seq<char>, FileStatus)>,
    b: Option<FileStatus>,
    p: Seq<char>,
)
    ensures
        (read_paths(read).contains(p) || !asked.contains(p)) ==> status_after_edits(b, p, remove_edits(prev, asked, read)) == b,
        (!read_paths(read).contains(p) && asked.contains(p) && b == status_of(prev, p)) ==> status_after_edits(
            b,
            p,
            remove_edits(prev, asked, read),
        ) is None,
    decreases asked.len(),
{
    if asked.len() > 0 {
        let d = asked.drop_last();
        let r = remove_edits(prev, d, read);
        lemma_remove_edits(prev, d, read, b, p);
        assert(r.push(StatusEditView::Remove(asked.last())).drop_last() =~= r);
        if !asked.contains(p) {
            assert(asked[asked.len() - 1] == asked.last());
            assert(!d.contains(p)) by {
                if d.contains(p) {
                    let k = choose|k: int| 0 <= k < d.len() && d[k] == p;
                    assert(asked[k] == p);
                }
            }
        }
        if !read_paths(read).contains(p) && asked.contains(p) && b == status_of(prev, p) && asked.last() != p {
            assert(d.contains(p)) by {
                let k = choose|k: int| 0 <= k < asked.len() && asked[k] == p;
                assert(k < asked.len() - 1);
                assert(d[k] == p);
            }
        }
    }
}

/// After a refresh, a path whose status git reported has that status (where
/// git reported each path once); an asked-for path that git did not report
/// has none; every other path keeps its status.
pub proof fn lemma_refresh_statuses(
    prev: Seq<(Seq<char>, FileStatus)>,
    asked: Seq<Seq<char>>,
    read: Seq<(Seq<char>, FileStatus)>,
    p: Seq<char>,
)
    requires
        forall|a: int, b: int| 0 <= a < b < read.len() ==> read[a].0 != read[b].0,
    ensures
        forall|i: int|
            0 <= i < read.len() && read[i].0 == p ==> status_after_edits(status_of(prev, p), p, refresh_edits(prev, asked, read))
                == Some(read[i].1),
        !read_paths(read).contains(p) && asked.contains(p) ==> status_after_edits(
            status_of(prev, p),
            p,
            refresh_edits(prev, asked, read),
        ) is None,
        !read_paths(read).contains(p) && !asked.contains(p) ==> status_after_edits(
            status_of(prev, p),
            p,
            refresh_edits(prev, asked, read),
        ) == status_of(prev, p),
{
    let b = status_of(prev, p);
    let ins = insert_edits(prev, read);
    lemma_edits_concat(b, p, ins, remove_edits(prev, asked, read));
    lemma_insert_edits(prev, read, p);
    let after_ins = status_after_edits(b, p, ins);
    lemma_remove_edits(prev, asked, read, after_ins, p);
    assert forall|i: int| 0 <= i < read.len() && read[i].0 == p implies status_after_edits(b, p, refresh_edits(prev, asked, read)) == Some(read[i].1) by {
        assert(read_paths(read)[i] == p);
    }
}

} // verus!
