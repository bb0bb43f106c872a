//! The ordered list of worktrees of a project: where a new worktree goes,
//! how one is removed or moved, and how a path is found in them.
use vstd::prelude::*;
use crate::text::{opt_view, owned, str_eq, strings_view};
use crate::terminals::{opt_strings_view, present};
use crate::extension_catalog::{join_path, path_joined};

verus! {

/// The identity of a worktree.
#[derive(Debug, Clone, Copy, PartialEq, Eq, Hash, Structural)]
pub struct WorktreeId(pub usize);

/// What the store holds of a worktree: its identity and root path, whether
/// it is shown in the project panel, whether the store keeps it alive (a
/// strong handle) or only refers to it (a weak one), and whether a weakly
/// held worktree has since been released.
#[derive(Debug, Clone)]
pub struct WorktreeHandle {
    pub id: WorktreeId,
    pub abs_path: String,
    pub visible: bool,
    pub strong: bool,
    pub released: bool,
}

/// Why a move was refused: a worktree that the store does not hold.
#[derive(Debug, Clone, Copy, PartialEq, Eq, Structural)]
pub enum MoveWorktreeError {
    MissingWorktree(WorktreeId),
}

/// The worktrees of a project, in order.
pub struct WorktreeStore {
    pub retain_worktrees: bool,
    pub worktrees: Vec<WorktreeHandle>,
    pub worktrees_reordered: bool,
}

/// Whether the handle still reaches its worktree.
pub open spec fn is_live(h: WorktreeHandle) -> bool {
    !h.released
}

/// No two handles name the same worktree, and a strongly held worktree is
/// never released.
pub open spec fn handles_well_formed(ws: Seq<WorktreeHandle>) -> bool {
    &&& forall|i: int, j: int| 0 <= i < j < ws.len() ==> (#[trigger] ws[i]).id != (#[trigger] ws[j]).id
    &&& forall|i: int| 0 <= i < ws.len() ==> (#[trigger] ws[i]).strong ==> !ws[i].released
}

/// The position of the live worktree with the given id, if the store holds one.
pub open spec fn live_position(ws: Seq<WorktreeHandle>, id: WorktreeId) -> Option<int> {
    if exists|i: int| 0 <= i < ws.len() && is_live(#[trigger] ws[i]) && ws[i].id == id {
        Some(choose|i: int| 0 <= i < ws.len() && is_live(#[trigger] ws[i]) && ws[i].id == id)
    } else {
        None
    }
}

/// The ids of the live worktrees, in order; `visible_only` keeps those shown
/// in the project panel.
pub open spec fn live_ids(ws: Seq<WorktreeHandle>, visible_only: bool) -> Seq<WorktreeId>
    decreases ws.len(),
{
    if ws.len() == 0 {
        Seq::empty()
    } else {
        let h = ws.last();
        live_ids(ws.drop_last(), visible_only) + if is_live(h) && (!visible_only || h.visible) {
            seq![h.id]
        } else {
            Seq::empty()
        }
    }
}

/// The handles that stay when the worktree `id` is removed: the live ones
/// with another id.
pub open spec fn retained(ws: Seq<WorktreeHandle>, id: WorktreeId) -> Seq<WorktreeHandle>
    decreases ws.len(),
{
    if ws.len() == 0 {
        Seq::empty()
    } else {
        let h = ws.last();
        retained(ws.drop_last(), id) + if is_live(h) && h.id != id {
            seq![h]
        } else {
            Seq::empty()
        }
    }
}

/// The order of worktrees by root path that `Path`'s `Ord` gives.
pub uninterp spec fn path_order_less(a: Seq<char>, b: Seq<char>) -> bool;

/// `Path::strip_prefix`: the rest of `path` below `base`, where `base` is a
/// leading run of whole components of `path`.
pub uninterp spec fn path_strip_prefix(path: Seq<char>, base: Seq<char>) -> Option<Seq<char>>;

/// `<` on two `Path`s; no path comes before itself.
#[verifier::external_body]
pub(crate) fn path_less(a: &str, b: &str) -> (r: bool)
    ensures
        r == path_order_less(a@, b@),
        a@ == b@ ==> !r,
{
    std::path::Path::new(a) < std::path::Path::new(b)
}

/// `Path::strip_prefix`, with the rest of the path as text.
#[verifier::external_body]
pub(crate) fn strip_path_prefix(path: &str, base: &str) -> (r: Option<String>)
    ensures
        opt_view(r) == path_strip_prefix(path@, base@),
{
    match std::path::Path::new(path).strip_prefix(base) {
        Ok(rest) => Some(rest.to_string_lossy().into_owned()),
        Err(_) => None,
    }
}

/// The sort key of a handle: its root path while it is live, nothing once
/// released (which sorts first).
pub open spec fn sort_key(h: WorktreeHandle) -> Option<Seq<char>> {
    if is_live(h) {
        Some(h.abs_path@)
    } else {
        None
    }
}

/// Whether key `a` sorts before key `b`.
pub open spec fn key_before(a: Option<Seq<char>>, b: Option<Seq<char>>) -> bool {
    match (a, b) {
        (None, Some(_)) => true,
        (Some(x), Some(y)) => path_order_less(x, y),
        _ => false,
    }
}

/// Where a worktree with the given root path goes among the handles: after
/// the handle before it, whose key sorts before the path, and before the
/// handle at it, whose key does not. On a list sorted by key this is the
/// place that keeps it sorted.
pub open spec fn is_insertion_point(ws: Seq<WorktreeHandle>, path: Seq<char>, i: int) -> bool {
    &&& 0 <= i <= ws.len()
    &&& i > 0 ==> key_before(sort_key(ws[i - 1]), Some(path))
    &&& i < ws.len() ==> !key_before(sort_key(ws[i]), Some(path))
}

/// The handles after a worktree moves from the position of `source` to that
/// of `destination`, or the worktree that is missing.
pub open spec fn move_result(ws: Seq<WorktreeHandle>, source: WorktreeId, destination: WorktreeId) -> Result<
    Seq<WorktreeHandle>,
    MoveWorktreeError,
> {
    if source == destination {
        Ok(ws)
    } else {
        match (live_position(ws, source), live_position(ws, destination)) {
            (None, _) => Err(MoveWorktreeError::MissingWorktree(source)),
            (Some(_), None) => Err(MoveWorktreeError::MissingWorktree(destination)),
            (Some(s), Some(d)) => Ok(ws.remove(s).insert(d, ws[s])),
        }
    }
}

proof fn lemma_live_position_unique(ws: Seq<WorktreeHandle>, id: WorktreeId, i: int)
    requires
        handles_well_formed(ws),
        0 <= i < ws.len(),
        is_live(ws[i]),
        ws[i].id == id,
    ensures
        live_position(ws, id) == Some(i),
{
    let j = choose|j: int| 0 <= j < ws.len() && is_live(#[trigger] ws[j]) && ws[j].id == id;
    if j != i {
        if j < i {
            assert(ws[j].id != ws[i].id);
        } else {
            assert(ws[i].id != ws[j].id);
        }
    }
}

/// Moving a worktree is undone by moving it to the worktree that took its
/// old place.
pub proof fn lemma_move_undone(ws: Seq<WorktreeHandle>, source: WorktreeId, destination: WorktreeId)
    requires
        handles_well_formed(ws),
        forall|k: int| 0 <= k < ws.len() ==> is_live(#[trigger] ws[k]),
        move_result(ws, source, destination) is Ok,
        source != destination,
    ensures
        ({
            let moved = move_result(ws, source, destination)->Ok_0;
            let s = live_position(ws, source)->0;
            &&& 0 <= s < moved.len()
            &&& move_result(moved, source, moved[s].id) == Ok::<Seq<WorktreeHandle>, MoveWorktreeError>(ws)
        }),
{
    let s = live_position(ws, source)->0;
    let d = live_position(ws, destination)->0;
    let e = ws[s];
    let moved = ws.remove(s).insert(d, e);
    assert(0 <= s < ws.len() && is_live(ws[s]) && ws[s].id == source);
    assert(0 <= d < ws.len() && is_live(ws[d]) && ws[d].id == destination);
    assert(s != d);
    lemma_move_keeps_well_formed(ws, s, d);
    assert(moved[d] == e);
    let x = moved[s];
    assert(x.id != source) by {
        if s < d {
            assert(moved[s] == ws[s + 1]);
            assert(ws[s].id != ws[s + 1].id);
        } else {
            assert(moved[s] == ws[s - 1]);
            assert(ws[s - 1].id != ws[s].id);
        }
    }
    assert(is_live(x)) by {
        if s < d {
            assert(moved[s] == ws[s + 1]);
        } else {
            assert(moved[s] == ws[s - 1]);
        }
    }
    lemma_live_position_unique(moved, source, d);
    lemma_live_position_unique(moved, x.id, s);
    assert(moved.remove(d).insert(s, e) =~= ws);
}

/// A move keeps the handles well formed.
proof fn lemma_move_keeps_well_formed(ws: Seq<WorktreeHandle>, s: int, d: int)
    requires
        handles_well_formed(ws),
        0 <= s < ws.len(),
        0 <= d < ws.len(),
    ensures
        handles_well_formed(ws.remove(s).insert(d, ws[s])),
        ws.remove(s).insert(d, ws[s]).len() == ws.len(),
        ws.remove(s).insert(d, ws[s]).to_multiset() == ws.to_multiset(),
{
    let e = ws[s];
    let r = ws.remove(s);
    let m = r.insert(d, e);
    // position in `ws` of the handle at position k of `m`
    let src = |k: int|
        if k == d {
            s
        } else {
            let rk = if k < d { k } else { k - 1 };
            if rk < s { rk } else { rk + 1 }
        };
    assert forall|k: int| 0 <= k < m.len() implies m[k] == ws[src(k)] && 0 <= src(k) < ws.len() by {
        if k != d {
            let rk = if k < d { k } else { k - 1 };
            assert(m[k] == r[rk]);
        }
    }
    assert forall|i: int, j: int| 0 <= i < j < m.len() implies (#[trigger] m[i]).id != (#[trigger] m[j]).id by {
        assert(m[i] == ws[src(i)]);
        assert(m[j] == ws[src(j)]);
        assert(src(i) != src(j));
        if src(i) < src(j) {
            assert(ws[src(i)].id != ws[src(j)].id);
        } else {
            assert(ws[src(j)].id != ws[src(i)].id);
        }
    }
    assert forall|i: int| 0 <= i < m.len() && (#[trigger] m[i]).strong implies !m[i].released by {
        assert(m[i] == ws[src(i)]);
    }
    broadcast use vstd::seq_lib::group_seq_properties;
    assert(r.to_multiset() == ws.to_multiset().remove(e)) by {
        ws.to_multiset_ensures();
        r.to_multiset_ensures();
        assert(ws =~= ws.subrange(0, s) + seq![e] + ws.subrange(s + 1, ws.len() as int));
        assert(r =~= ws.subrange(0, s) + ws.subrange(s + 1, ws.len() as int));
        vstd::seq_lib::lemma_multiset_commutative(ws.subrange(0, s), seq![e]);
        vstd::seq_lib::lemma_multiset_commutative(ws.subrange(0, s) + seq![e], ws.subrange(s + 1, ws.len() as int));
        vstd::seq_lib::lemma_multiset_commutative(ws.subrange(0, s), ws.subrange(s + 1, ws.len() as int));
    }
    assert(m.to_multiset() == r.to_multiset().insert(e)) by {
        assert(r =~= r.subrange(0, d) + r.subrange(d, r.len() as int));
        assert(m =~= r.subrange(0, d) + seq![e] + r.subrange(d, r.len() as int));
        vstd::seq_lib::lemma_multiset_commutative(r.subrange(0, d), seq![e]);
        vstd::seq_lib::lemma_multiset_commutative(r.subrange(0, d) + seq![e], r.subrange(d, r.len() as int));
        vstd::seq_lib::lemma_multiset_commutative(r.subrange(0, d), r.subrange(d, r.len() as int));
    }
    assert(ws.to_multiset().count(e) > 0) by {
        ws.to_multiset_ensures();
    }
    assert(m.to_multiset() =~= ws.to_multiset());
}

/// The handle of a newly added, live worktree.
pub open spec fn new_handle(id: WorktreeId, abs_path: String, visible: bool, strong: bool) -> WorktreeHandle {
    WorktreeHandle { id, abs_path, visible, strong, released: false }
}

/// An equal copy of a handle.
fn copy_handle(h: &WorktreeHandle) -> (r: WorktreeHandle)
    ensures
        r == *h,
{
    WorktreeHandle {
        id: h.id,
        abs_path: h.abs_path.clone(),
        visible: h.visible,
        strong: h.strong,
        released: h.released,
    }
}

/// Every retained handle is one of the originals.
proof fn lemma_retained_from(ws: Seq<WorktreeHandle>, id: WorktreeId)
    ensures
        forall|k: int| 0 <= k < retained(ws, id).len() ==> ws.contains(#[trigger] retained(ws, id)[k]),
    decreases ws.len(),
{
    if ws.len() > 0 {
        lemma_retained_from(ws.drop_last(), id);
        let r0 = retained(ws.drop_last(), id);
        let r = retained(ws, id);
        assert forall|k: int| 0 <= k < r.len() implies ws.contains(#[trigger] r[k]) by {
            if k < r0.len() {
                assert(r[k] == r0[k]);
                assert(ws.drop_last().contains(r0[k]));
                let j = choose|j: int| 0 <= j < ws.drop_last().len() && ws.drop_last()[j] == r0[k];
                assert(ws[j] == r0[k]);
            } else {
                assert(r[k] == ws[ws.len() - 1]);
            }
        }
    }
}

/// Removing keeps the handles well formed.
proof fn lemma_retained_well_formed(ws: Seq<WorktreeHandle>, id: WorktreeId)
    requires
        handles_well_formed(ws),
    ensures
        handles_well_formed(retained(ws, id)),
    decreases ws.len(),
{
    if ws.len() > 0 {
        let w0 = ws.drop_last();
        assert(handles_well_formed(w0)) by {
            assert forall|i: int, j: int| 0 <= i < j < w0.len() implies (#[trigger] w0[i]).id != (#[trigger] w0[j]).id by {
                assert(w0[i] == ws[i] && w0[j] == ws[j]);
            }
            assert forall|i: int| 0 <= i < w0.len() && (#[trigger] w0[i]).strong implies !w0[i].released by {
                assert(w0[i] == ws[i]);
            }
        }
        lemma_retained_well_formed(w0, id);
        lemma_retained_from(w0, id);
        let r0 = retained(w0, id);
        let r = retained(ws, id);
        let last = ws[ws.len() - 1];
        assert forall|i: int, j: int| 0 <= i < j < r.len() implies (#[trigger] r[i]).id != (#[trigger] r[j]).id by {
            if j < r0.len() {
                assert(r[i] == r0[i] && r[j] == r0[j]);
            } else {
                assert(r[j] == last);
                assert(r[i] == r0[i]);
                assert(w0.contains(r0[i]));
                let k = choose|k: int| 0 <= k < w0.len() && w0[k] == r0[i];
                assert(ws[k] == r0[i]);
                assert(ws[k].id != ws[ws.len() - 1].id);
            }
        }
        assert forall|i: int| 0 <= i < r.len() && (#[trigger] r[i]).strong implies !r[i].released by {
            if i < r0.len() {
                assert(r[i] == r0[i]);
            } else {
                assert(r[i] == last);
            }
        }
    }
}

impl WorktreeStore {
    /// The handles, well formed.
    pub open spec fn well_formed(&self) -> bool {
        handles_well_formed(self.worktrees@)
    }

    /// An empty store; `retain_worktrees` makes it keep every worktree alive.
    pub fn local(retain_worktrees: bool) -> (r: Self)
        ensures
            r.well_formed(),
            r.worktrees@.len() == 0,
            r.retain_worktrees == retain_worktrees,
            !r.worktrees_reordered,
    {
        WorktreeStore { retain_worktrees, worktrees: Vec::new(), worktrees_reordered: false }
    }

    /// The ids of the live worktrees, in order; with `visible_only`, those
    /// shown in the project panel.
    fn ids(&self, visible_only: bool) -> (r: Vec<WorktreeId>)
        ensures
            r@ == live_ids(self.worktrees@, visible_only),
    {
        let ghost ws = self.worktrees@;
        let mut r: Vec<WorktreeId> = Vec::new();
        let mut i: usize = 0;
        while i < self.worktrees.len()
            invariant
                ws == self.worktrees@,
                i <= ws.len(),
                r@ == live_ids(ws.subrange(0, i as int), visible_only),
            decreases ws.len() - i,
        {
            let h = &self.worktrees[i];
            assert(ws.subrange(0, i + 1).drop_last() =~= ws.subrange(0, i as int));
            if !h.released && (!visible_only || h.visible) {
                r.push(h.id);
            }
            assert(r@ =~= live_ids(ws.subrange(0, i + 1), visible_only));
            i = i + 1;
        }
        assert(ws.subrange(0, ws.len() as int) =~= ws);
        r
    }

    /// The ids of all live worktrees, in order, including those the project
    /// panel does not show.
    pub fn worktrees(&self) -> (r: Vec<WorktreeId>)
        ensures
            r@ == live_ids(self.worktrees@, false),
    {
        self.ids(false)
    }

    /// The ids of the live worktrees that the project panel shows, in order.
    pub fn visible_worktrees(&self) -> (r: Vec<WorktreeId>)
        ensures
            r@ == live_ids(self.worktrees@, true),
    {
        self.ids(true)
    }

    /// The position of the live worktree with the given id.
    pub fn worktree_for_id(&self, id: WorktreeId) -> (r: Option<usize>)
        requires
            self.well_formed(),
        ensures
            r is None <==> live_position(self.worktrees@, id) is None,
            r matches Some(i) ==> live_position(self.worktrees@, id) == Some(i as int),
    {
        let ghost ws = self.worktrees@;
        let mut i: usize = 0;
        while i < self.worktrees.len()
            invariant
                ws == self.worktrees@,
                handles_well_formed(ws),
                i <= ws.len(),
                forall|k: int| 0 <= k < i ==> !(is_live(#[trigger] ws[k]) && ws[k].id == id),
            decreases ws.len() - i,
        {
            if !self.worktrees[i].released && self.worktrees[i].id == id {
                proof {
                    lemma_live_position_unique(ws, id, i as int);
                }
                return Some(i);
            }
            i = i + 1;
        }
        None
    }

    /// The first live worktree whose root contains `abs_path`, with the rest
    /// of the path below that root.
    pub fn find_worktree(&self, abs_path: &str) -> (r: Option<(WorktreeId, String)>)
        ensures
            match r {
                None => forall|k: int| 0 <= k < self.worktrees@.len() && is_live(#[trigger] self.worktrees@[k])
                    ==> path_strip_prefix(abs_path@, self.worktrees@[k].abs_path@) is None,
                Some((id, rest)) => exists|i: int| {
                    &&& 0 <= i < self.worktrees@.len()
                    &&& is_live(#[trigger] self.worktrees@[i])
                    &&& self.worktrees@[i].id == id
                    &&& path_strip_prefix(abs_path@, self.worktrees@[i].abs_path@) == Some(rest@)
                    &&& forall|k: int| 0 <= k < i && is_live(#[trigger] self.worktrees@[k])
                        ==> path_strip_prefix(abs_path@, self.worktrees@[k].abs_path@) is None
                },
            },
    {
        let ghost ws = self.worktrees@;
        let mut i: usize = 0;
        while i < self.worktrees.len()
            invariant
                ws == self.worktrees@,
                i <= ws.len(),
                forall|k: int| 0 <= k < i && is_live(#[trigger] ws[k]) ==> path_strip_prefix(abs_path@, ws[k].abs_path@) is None,
            decreases ws.len() - i,
        {
            let h = &self.worktrees[i];
            if !h.released {
                if let Some(rest) = strip_path_prefix(abs_path, h.abs_path.as_str()) {
                    assert(is_live(ws[i as int]));
                    return Some((h.id, rest));
                }
            }
            i = i + 1;
        }
        None
    }

    /// The first position whose key does not sort before `path`, found by
    /// halving.
    fn insertion_point(&self, path: &str) -> (i: usize)
        ensures
            is_insertion_point(self.worktrees@, path@, i as int),
    {
        let ghost ws = self.worktrees@;
        let mut lo: usize = 0;
        let mut hi: usize = self.worktrees.len();
        while lo < hi
            invariant
                ws == self.worktrees@,
                lo <= hi <= ws.len(),
                lo > 0 ==> key_before(sort_key(ws[lo - 1]), Some(path@)),
                hi < ws.len() ==> !key_before(sort_key(ws[hi as int]), Some(path@)),
            decreases hi - lo,
        {
            let mid = lo + (hi - lo) / 2;
            let h = &self.worktrees[mid];
            let before = if h.released {
                true
            } else {
                path_less(h.abs_path.as_str(), path)
            };
            if before {
                lo = mid + 1;
            } else {
                hi = mid;
            }
        }
        lo
    }

    /// Adds a worktree. The store holds it strongly where it keeps every
    /// worktree or the worktree is visible, else weakly. Once the user has
    /// reordered the worktrees a new one goes last; until then it goes to its
    /// place by root path.
    pub fn add(&mut self, id: WorktreeId, abs_path: String, visible: bool)
        requires
            old(self).well_formed(),
            forall|k: int| 0 <= k < old(self).worktrees@.len() ==> (#[trigger] old(self).worktrees@[k]).id != id,
        ensures
            final(self).well_formed(),
            final(self).retain_worktrees == old(self).retain_worktrees,
            final(self).worktrees_reordered == old(self).worktrees_reordered,
            old(self).worktrees_reordered ==> final(self).worktrees@ == old(self).worktrees@.push(
                new_handle(id, abs_path, visible, old(self).retain_worktrees || visible),
            ),
            !old(self).worktrees_reordered ==> exists|i: int| #[trigger] is_insertion_point(old(self).worktrees@, abs_path@, i)
                && final(self).worktrees@ == old(self).worktrees@.insert(
                i,
                new_handle(id, abs_path, visible, old(self).retain_worktrees || visible),
            ),
    {
        let ghost ws = self.worktrees@;
        let strong = self.retain_worktrees || visible;
        let ghost path = abs_path@;
        let h = WorktreeHandle { id, abs_path, visible, strong, released: false };
        if self.worktrees_reordered {
            self.worktrees.push(h);
            assert(self.worktrees@ == ws.push(h));
            assert forall|i: int, j: int| 0 <= i < j < self.worktrees@.len() implies (#[trigger] self.worktrees@[i]).id != (#[trigger] self.worktrees@[j]).id by {
                if j == ws.len() {
                    assert(ws[i].id != id);
                }
            }
        } else {
            let i = self.insertion_point(h.abs_path.as_str());
            assert(h.abs_path@ == path);
            assert(is_insertion_point(ws, path, i as int));
            self.worktrees.insert(i, h);
            assert(self.worktrees@ == ws.insert(i as int, h));
            let ghost m = self.worktrees@;
            assert forall|a: int, b: int| 0 <= a < b < m.len() implies (#[trigger] m[a]).id != (#[trigger] m[b]).id by {
                let sa = if a < i { a } else if a == i { -1 } else { a - 1 };
                let sb = if b < i { b } else if b == i { -1 } else { b - 1 };
                if a == i {
                    assert(m[b] == ws[sb]);
                    assert(ws[sb].id != id);
                } else if b == i {
                    assert(m[a] == ws[sa]);
                    assert(ws[sa].id != id);
                } else {
                    assert(m[a] == ws[sa]);
                    assert(m[b] == ws[sb]);
                    assert(ws[sa].id != ws[sb].id);
                }
            }
            assert forall|a: int| 0 <= a < m.len() && (#[trigger] m[a]).strong implies !m[a].released by {
                if a < i {
                    assert(m[a] == ws[a]);
                } else if a > i {
                    assert(m[a] == ws[a - 1]);
                }
            }
            assert(is_insertion_point(ws, path, i as int) && self.worktrees@ == ws.insert(i as int, h));
        }
    }

    /// Marks the weakly held worktree `id` as released: its handle no longer
    /// reaches it. Strongly held worktrees are unaffected.
    pub fn release_worktree(&mut self, id: WorktreeId)
        requires
            old(self).well_formed(),
        ensures
            final(self).well_formed(),
            final(self).retain_worktrees == old(self).retain_worktrees,
            final(self).worktrees_reordered == old(self).worktrees_reordered,
            final(self).worktrees@.len() == old(self).worktrees@.len(),
            forall|k: int| 0 <= k < old(self).worktrees@.len() ==> {
                let h = #[trigger] old(self).worktrees@[k];
                final(self).worktrees@[k] == if h.id == id && !h.strong {
                    WorktreeHandle { released: true, ..h }
                } else {
                    h
                }
            },
    {
        let ghost ws = self.worktrees@;
        let ghost retain = self.retain_worktrees;
        let ghost reordered = self.worktrees_reordered;
        let mut i: usize = 0;
        while i < self.worktrees.len()
            invariant
                retain == self.retain_worktrees,
                reordered == self.worktrees_reordered,
                ws.len() == self.worktrees@.len(),
                handles_well_formed(ws),
                i <= ws.len(),
                forall|k: int| 0 <= k < ws.len() ==> (#[trigger] self.worktrees@[k]).id == ws[k].id,
                forall|k: int| 0 <= k < ws.len() ==> {
                    let h = #[trigger] ws[k];
                    self.worktrees@[k] == if k < i && h.id == id && !h.strong {
                        WorktreeHandle { released: true, ..h }
                    } else {
                        h
                    }
                },
            decreases ws.len() - i,
        {
            if self.worktrees[i].id == id && !self.worktrees[i].strong {
                let h = &self.worktrees[i];
                let released = WorktreeHandle {
                    id: h.id,
                    abs_path: h.abs_path.clone(),
                    visible: h.visible,
                    strong: h.strong,
                    released: true,
                };
                self.worktrees.set(i, released);
            }
            i = i + 1;
        }
    }

    /// Removes the worktree `id`, and drops the handles of released
    /// worktrees on the way. Returns whether a live worktree `id` was removed.
    pub fn remove_worktree(&mut self, id_to_remove: WorktreeId) -> (removed: bool)
        requires
            old(self).well_formed(),
        ensures
            final(self).well_formed(),
            final(self).worktrees@ == retained(old(self).worktrees@, id_to_remove),
            final(self).retain_worktrees == old(self).retain_worktrees,
            final(self).worktrees_reordered == old(self).worktrees_reordered,
            removed == live_position(old(self).worktrees@, id_to_remove) is Some,
    {
        let ghost ws = self.worktrees@;
        let mut kept: Vec<WorktreeHandle> = Vec::new();
        let mut removed = false;
        let mut old_list: Vec<WorktreeHandle> = Vec::new();
        std::mem::swap(&mut old_list, &mut self.worktrees);
        assert(old_list@ == ws);
        let mut i: usize = 0;
        while i < old_list.len()
            invariant
                ws == old_list@,
                handles_well_formed(ws),
                i <= ws.len(),
                kept@ == retained(ws.subrange(0, i as int), id_to_remove),
                removed <==> exists|k: int| 0 <= k < i && is_live(#[trigger] ws[k]) && ws[k].id == id_to_remove,
            decreases ws.len() - i,
        {
            assert(ws.subrange(0, i + 1).drop_last() =~= ws.subrange(0, i as int));
            let h = &old_list[i];
            if !h.released {
                if h.id == id_to_remove {
                    removed = true;
                } else {
                    kept.push(copy_handle(h));
                }
            }
            assert(kept@ =~= retained(ws.subrange(0, i + 1), id_to_remove));
            i = i + 1;
        }
        assert(ws.subrange(0, ws.len() as int) =~= ws);
        proof {
            lemma_retained_well_formed(ws, id_to_remove);
            if live_position(ws, id_to_remove) is Some {
                let k = choose|k: int| 0 <= k < ws.len() && is_live(#[trigger] ws[k]) && ws[k].id == id_to_remove;
                assert(is_live(ws[k]) && ws[k].id == id_to_remove);
            }
        }
        self.worktrees = kept;
        removed
    }

    /// Records whether the user has put the worktrees in an order of their own.
    pub fn set_worktrees_reordered(&mut self, worktrees_reordered: bool)
        ensures
            final(self).worktrees_reordered == worktrees_reordered,
            final(self).worktrees@ == old(self).worktrees@,
            final(self).retain_worktrees == old(self).retain_worktrees,
    {
        self.worktrees_reordered = worktrees_reordered;
    }

    /// Moves the worktree `source` to the position of `destination`, as
    /// `move_result` describes; a real move marks the order as the user's.
    pub fn move_worktree(&mut self, source: WorktreeId, destination: WorktreeId) -> (r: Result<(), MoveWorktreeError>)
        requires
            old(self).well_formed(),
        ensures
            final(self).well_formed(),
            final(self).retain_worktrees == old(self).retain_worktrees,
            match move_result(old(self).worktrees@, source, destination) {
                Ok(ws) => {
                    &&& r is Ok
                    &&& final(self).worktrees@ == ws
                    &&& final(self).worktrees_reordered == (old(self).worktrees_reordered || source != destination)
                },
                Err(e) => {
                    &&& r == Err::<(), MoveWorktreeError>(e)
                    &&& final(self).worktrees@ == old(self).worktrees@
                    &&& final(self).worktrees_reordered == old(self).worktrees_reordered
                },
            },
    {
        if source == destination {
            return Ok(());
        }
        let source_index = match self.worktree_for_id(source) {
            Some(i) => i,
            None => return Err(MoveWorktreeError::MissingWorktree(source)),
        };
        let destination_index = match self.worktree_for_id(destination) {
            Some(i) => i,
            None => return Err(MoveWorktreeError::MissingWorktree(destination)),
        };
        let ghost ws = self.worktrees@;
        proof {
            lemma_move_keeps_well_formed(ws, source_index as int, destination_index as int);
        }
        let moving = self.worktrees.remove(source_index);
        self.worktrees.insert(destination_index, moving);
        self.worktrees_reordered = true;
        Ok(())
    }
}

/// What a project search does with an entry of a worktree.
#[derive(Debug, Clone, Copy, PartialEq, Eq, Structural)]
pub enum SearchCandidate {
    /// An ignored directory: list it on disk and search what it holds.
    ScanIgnoredDir,
    /// Not searched.
    Skip,
    /// A file open in the editor, searched as it is there.
    OpenBuffer,
    /// A file on disk, whose contents the search filters.
    FilterContents,
}

/// What a search does with an entry: an ignored directory is listed on disk
/// unless the settings exclude it; anything but a regular file is skipped,
/// as is a file whose path the query's path filter rejects; a file open in
/// the editor is searched there, any other file on disk.
pub fn search_candidate(
    is_dir: bool,
    is_ignored: bool,
    path_excluded: bool,
    is_fifo: bool,
    is_file: bool,
    query_filters_path: bool,
    path_matches: bool,
    is_open: bool,
) -> (r: SearchCandidate)
    ensures
        r == if is_dir && is_ignored {
            if path_excluded {
                SearchCandidate::Skip
            } else {
                SearchCandidate::ScanIgnoredDir
            }
        } else if is_fifo || !is_file {
            SearchCandidate::Skip
        } else if query_filters_path && !path_matches {
            SearchCandidate::Skip
        } else if is_open {
            SearchCandidate::OpenBuffer
        } else {
            SearchCandidate::FilterContents
        },
{
    if is_dir && is_ignored {
        if path_excluded {
            SearchCandidate::Skip
        } else {
            SearchCandidate::ScanIgnoredDir
        }
    } else if is_fifo || !is_file {
        SearchCandidate::Skip
    } else if query_filters_path && !path_matches {
        SearchCandidate::Skip
    } else if is_open {
        SearchCandidate::OpenBuffer
    } else {
        SearchCandidate::FilterContents
    }
}

/// The path a search's path filter is matched against: below the
/// worktree's root name where the query matches full paths, else the path
/// within the worktree.
pub fn search_match_path(match_full_paths: bool, root_name: &str, path: &str) -> (r: String)
    ensures
        r@ == if match_full_paths {
            path_joined(root_name@, path@)
        } else {
            path@
        },
{
    if match_full_paths {
        join_path(root_name, path)
    } else {
        owned(path)
    }
}

/// The paths a search reports, from the candidates in worktree order (each
/// a match or none): the matches in order, no more than `limit` of them
/// where `limit` is not zero (a zero limit never stops the search).
pub open spec fn search_results_of(found: Seq<Option<Seq<char>>>, limit: nat) -> Seq<Seq<char>> {
    let p = present(found);
    if limit > 0 && p.len() > limit {
        p.subrange(0, limit as int)
    } else {
        p
    }
}

proof fn lemma_present_concat(a: Seq<Option<Seq<char>>>, b: Seq<Option<Seq<char>>>)
    ensures
        present(a + b) == present(a) + present(b),
    decreases b.len(),
{
    if b.len() == 0 {
        assert(a + b =~= a);
        assert(present(a) + present(b) =~= present(a));
    } else {
        lemma_present_concat(a, b.drop_last());
        assert((a + b).drop_last() =~= a + b.drop_last());
        assert((a + b).last() == b.last());
        let tail = match b.last() {
            Some(x) => seq![x],
            None => Seq::<Seq<char>>::empty(),
        };
        assert(present(a) + present(b.drop_last()) + tail =~= present(a) + (present(b.drop_last()) + tail));
    }
}

/// The paths a search reports, as `search_results_of` describes.
pub fn search_results(found: &Vec<Option<String>>, limit: usize) -> (r: Vec<String>)
    ensures
        strings_view(r@) == search_results_of(opt_strings_view(found@), limit as nat),
{
    let ghost all = opt_strings_view(found@);
    let mut out: Vec<String> = Vec::new();
    let mut i: usize = 0;
    while i < found.len()
        invariant
            all == opt_strings_view(found@),
            i <= found@.len(),
            strings_view(out@) == present(all.subrange(0, i as int)),
            limit == 0 || out@.len() < limit,
        decreases found@.len() - i,
    {
        let ghost before = strings_view(out@);
        assert(all.subrange(0, i + 1).drop_last() =~= all.subrange(0, i as int));
        match &found[i] {
            Some(p) => {
                out.push(owned(p.as_str()));
                assert(strings_view(out@) =~= before.push(p@));
                assert(strings_view(out@) =~= present(all.subrange(0, i + 1)));
                if out.len() == limit {
                    proof {
                        lemma_present_concat(all.subrange(0, i + 1), all.subrange(i + 1, all.len() as int));
                        assert(all.subrange(0, i + 1) + all.subrange(i + 1, all.len() as int) =~= all);
                        assert(present(all).subrange(0, limit as int) =~= strings_view(out@));
                    }
                    return out;
                }
            },
            None => {
                assert(strings_view(out@) =~= present(all.subrange(0, i + 1)));
            },
        }
        i = i + 1;
    }
    assert(all.subrange(0, found@.len() as int) =~= all);
    out
}

} // verus!
