//! The diff bases of an open buffer: the index and head texts that its
//! unstaged and uncommitted diffs are computed against, how they change, and
//! when a recalculation of the diffs may be applied.
use vstd::prelude::*;
use crate::text::{chars_of, opt_view, owned, str_eq, string_of};

verus! {

/// Line endings made uniform: each `\r\n`, and each `\r` alone, becomes `\n`.
pub open spec fn normalized_line_endings(s: Seq<char>) -> Seq<char>
    decreases s.len(),
{
    if s.len() == 0 {
        s
    } else if s[0] == '\r' {
        if s.len() > 1 && s[1] == '\n' {
            seq!['\n'] + normalized_line_endings(s.subrange(2, s.len() as int))
        } else {
            seq!['\n'] + normalized_line_endings(s.subrange(1, s.len() as int))
        }
    } else {
        seq![s[0]] + normalized_line_endings(s.subrange(1, s.len() as int))
    }
}

/// A text with uniform line endings holds no `\r`, and making its line
/// endings uniform again changes nothing.
pub proof fn lemma_normalized_line_endings(s: Seq<char>)
    ensures
        forall|i: int| 0 <= i < normalized_line_endings(s).len() ==> normalized_line_endings(s)[i] != '\r',
        normalized_line_endings(normalized_line_endings(s)) == normalized_line_endings(s),
    decreases s.len(),
{
    if s.len() > 0 {
        let n = normalized_line_endings(s);
        if s[0] == '\r' && s.len() > 1 && s[1] == '\n' {
            let rest = s.subrange(2, s.len() as int);
            lemma_normalized_line_endings(rest);
            lemma_normalized_prefix_char('\n', normalized_line_endings(rest));
        } else {
            let rest = s.subrange(1, s.len() as int);
            lemma_normalized_line_endings(rest);
            let c = if s[0] == '\r' { '\n' } else { s[0] };
            assert(n == seq![c] + normalized_line_endings(rest));
            lemma_normalized_prefix_char(c, normalized_line_endings(rest));
        }
    }
}

/// Normalizing a text that starts with a character other than `\r`, whose
/// rest holds no `\r` and is normalized already, changes nothing.
proof fn lemma_normalized_prefix_char(c: char, t: Seq<char>)
    requires
        c != '\r',
        forall|i: int| 0 <= i < t.len() ==> t[i] != '\r',
        normalized_line_endings(t) == t,
    ensures
        normalized_line_endings(seq![c] + t) == seq![c] + t,
        forall|i: int| 0 <= i < (seq![c] + t).len() ==> (seq![c] + t)[i] != '\r',
{
    let u = seq![c] + t;
    assert(u.subrange(1, u.len() as int) =~= t);
    assert forall|i: int| 0 <= i < u.len() implies u[i] != '\r' by {
        if i > 0 {
            assert(u[i] == t[i - 1]);
        }
    }
}

/// Makes the line endings of a text uniform, as `normalized_line_endings`
/// says.
pub fn normalize_line_endings(text: &str) -> (r: String)
    ensures
        r@ == normalized_line_endings(text@),
{
    let s = chars_of(text);
    let ghost sv = s@;
    let mut out: Vec<char> = Vec::new();
    let mut i: usize = 0;
    proof {
        assert(sv.subrange(0, sv.len() as int) =~= sv);
        assert(out@ + normalized_line_endings(sv) =~= normalized_line_endings(sv));
    }
    while i < s.len()
        invariant
            sv == s@,
            i <= sv.len(),
            out@ + normalized_line_endings(sv.subrange(i as int, sv.len() as int)) == normalized_line_endings(sv),
        decreases sv.len() - i,
    {
        let ghost rest = sv.subrange(i as int, sv.len() as int);
        if s[i] == '\r' {
            out.push('\n');
            if i + 1 < s.len() && s[i + 1] == '\n' {
                proof {
                    assert(rest.subrange(2, rest.len() as int) =~= sv.subrange(i + 2, sv.len() as int));
                    assert(out@ + normalized_line_endings(sv.subrange(i + 2, sv.len() as int)) =~= out@.drop_last()
                        + normalized_line_endings(rest));
                }
                i = i + 2;
            } else {
                proof {
                    assert(rest.subrange(1, rest.len() as int) =~= sv.subrange(i + 1, sv.len() as int));
                    assert(out@ + normalized_line_endings(sv.subrange(i + 1, sv.len() as int)) =~= out@.drop_last()
                        + normalized_line_endings(rest));
                }
                i = i + 1;
            }
        } else {
            out.push(s[i]);
            proof {
                assert(rest.subrange(1, rest.len() as int) =~= sv.subrange(i + 1, sv.len() as int));
                assert(out@ + normalized_line_endings(sv.subrange(i + 1, sv.len() as int)) =~= out@.drop_last()
                    + normalized_line_endings(rest));
            }
            i = i + 1;
        }
    }
    proof {
        assert(sv.subrange(sv.len() as int, sv.len() as int) =~= Seq::<char>::empty());
        assert(out@ + Seq::<char>::empty() =~= out@);
    }
    string_of(out.as_slice())
}

/// `normalized_line_endings` of an optional text.
pub open spec fn normalized_opt(o: Option<Seq<char>>) -> Option<Seq<char>> {
    match o {
        Some(t) => Some(normalized_line_endings(t)),
        None => None,
    }
}

fn normalize_opt(o: Option<String>) -> (r: Option<String>)
    ensures
        opt_view(r) == normalized_opt(opt_view(o)),
{
    match o {
        Some(t) => Some(normalize_line_endings(t.as_str())),
        None => None,
    }
}

/// A change of the texts that a buffer's diffs are computed against.
#[derive(Debug)]
pub enum DiffBasesChange {
    SetIndex(Option<String>),
    SetHead(Option<String>),
    SetEach { index: Option<String>, head: Option<String> },
    SetBoth(Option<String>),
}

/// A change of diff bases, as plain values.
pub enum BasesChangeView {
    SetIndex(Option<Seq<char>>),
    SetHead(Option<Seq<char>>),
    SetEach(Option<Seq<char>>, Option<Seq<char>>),
    SetBoth(Option<Seq<char>>),
}

impl View for DiffBasesChange {
    type V = BasesChangeView;

    open spec fn view(&self) -> BasesChangeView {
        match self {
            DiffBasesChange::SetIndex(i) => BasesChangeView::SetIndex(opt_view(*i)),
            DiffBasesChange::SetHead(h) => BasesChangeView::SetHead(opt_view(*h)),
            DiffBasesChange::SetEach { index, head } => BasesChangeView::SetEach(opt_view(*index), opt_view(*head)),
            DiffBasesChange::SetBoth(t) => BasesChangeView::SetBoth(opt_view(*t)),
        }
    }
}

/// An optional change, as plain values.
pub open spec fn opt_change_view(c: Option<DiffBasesChange>) -> Option<BasesChangeView> {
    match c {
        Some(c) => Some(c@),
        None => None,
    }
}

/// Which diff of a buffer is opened.
#[derive(Clone, Copy, Debug, PartialEq, Eq, Structural)]
pub enum DiffKind {
    Unstaged,
    Uncommitted,
}

/// The diff state of an open buffer: which of its diffs are open, the
/// texts they are computed against, what changed since the last
/// recalculation, and the count of hunk staging operations (those begun,
/// and the last one whose index write finished).
#[derive(Debug)]
pub struct BufferGitState {
    pub has_unstaged_diff: bool,
    pub has_uncommitted_diff: bool,
    pub hunk_staging_operation_count: usize,
    pub hunk_staging_operation_count_as_of_write: usize,
    pub head_text: Option<String>,
    pub index_text: Option<String>,
    /// Whether the index and head texts are one text, set together.
    pub bases_shared: bool,
    pub head_changed: bool,
    pub index_changed: bool,
    pub language_changed: bool,
    pub recalculating: bool,
}

/// The diff state as plain values.
pub struct DiffStateView {
    pub has_unstaged_diff: bool,
    pub has_uncommitted_diff: bool,
    pub staging_count: nat,
    pub staging_count_as_of_write: nat,
    pub head_text: Option<Seq<char>>,
    pub index_text: Option<Seq<char>>,
    pub bases_shared: bool,
    pub head_changed: bool,
    pub index_changed: bool,
    pub language_changed: bool,
    pub recalculating: bool,
}

impl View for BufferGitState {
    type V = DiffStateView;

    open spec fn view(&self) -> DiffStateView {
        DiffStateView {
            has_unstaged_diff: self.has_unstaged_diff,
            has_uncommitted_diff: self.has_uncommitted_diff,
            staging_count: self.hunk_staging_operation_count as nat,
            staging_count_as_of_write: self.hunk_staging_operation_count_as_of_write as nat,
            head_text: opt_view(self.head_text),
            index_text: opt_view(self.index_text),
            bases_shared: self.bases_shared,
            head_changed: self.head_changed,
            index_changed: self.index_changed,
            language_changed: self.language_changed,
            recalculating: self.recalculating,
        }
    }
}

/// The state after a change of diff bases: each text that the change sets is
/// set with its line endings made uniform and marked changed; only a change
/// that sets both to one text leaves them shared.
pub open spec fn bases_changed(s: DiffStateView, c: Option<BasesChangeView>) -> DiffStateView {
    match c {
        None => s,
        Some(BasesChangeView::SetIndex(i)) => DiffStateView {
            index_text: normalized_opt(i),
            index_changed: true,
            bases_shared: false,
            ..s
        },
        Some(BasesChangeView::SetHead(h)) => DiffStateView {
            head_text: normalized_opt(h),
            head_changed: true,
            bases_shared: false,
            ..s
        },
        Some(BasesChangeView::SetEach(i, h)) => DiffStateView {
            index_text: normalized_opt(i),
            head_text: normalized_opt(h),
            index_changed: true,
            head_changed: true,
            bases_shared: false,
            ..s
        },
        Some(BasesChangeView::SetBoth(t)) => DiffStateView {
            index_text: normalized_opt(t),
            head_text: normalized_opt(t),
            index_changed: true,
            head_changed: true,
            bases_shared: true,
            ..s
        },
    }
}

/// Whether the uncommitted diff can reuse the unstaged one: both texts are
/// absent, or they are one shared text.
pub open spec fn index_matches_head(s: DiffStateView) -> bool {
    match (s.index_text, s.head_text) {
        (Some(_), Some(_)) => s.bases_shared,
        (None, None) => true,
        _ => false,
    }
}

/// What a recalculation does for the uncommitted diff.
#[derive(Clone, Copy, Debug, PartialEq, Eq, Structural)]
pub enum UncommittedUpdate {
    /// There is no uncommitted diff.
    Skip,
    /// The uncommitted diff takes the result of the unstaged one.
    SameAsUnstaged,
    /// The uncommitted diff is computed against the head text.
    Recompute,
}

/// What a recalculation of a buffer's diffs computes: the unstaged diff
/// against the index text, the uncommitted one against the head text or as
/// a copy of the unstaged one, and the staging count to check against
/// before the results are applied.
#[derive(Debug)]
pub struct DiffRecalculation {
    pub update_unstaged: bool,
    pub index_text: Option<String>,
    pub index_changed: bool,
    pub uncommitted: UncommittedUpdate,
    pub head_text: Option<String>,
    pub head_changed: bool,
    pub language_changed: bool,
    pub staging_count_at_start: usize,
}

/// Whether a recalculation plan is the one that the state `s` calls for.
pub open spec fn recalculation_of(r: DiffRecalculation, s: DiffStateView) -> bool {
    &&& r.update_unstaged == s.has_unstaged_diff
    &&& opt_view(r.index_text) == s.index_text
    &&& r.index_changed == s.index_changed
    &&& r.uncommitted == (if !s.has_uncommitted_diff {
        UncommittedUpdate::Skip
    } else if index_matches_head(s) {
        UncommittedUpdate::SameAsUnstaged
    } else {
        UncommittedUpdate::Recompute
    })
    &&& opt_view(r.head_text) == s.head_text
    &&& r.head_changed == s.head_changed
    &&& r.language_changed == s.language_changed
    &&& r.staging_count_at_start == s.staging_count_as_of_write
}

/// A recalculation gives up its results once a hunk was staged or unstaged
/// after it started: it started at the count of finished index writes,
/// which does not run ahead of the count of staging operations, and the
/// staging count has grown past that since.
pub proof fn lemma_staging_cancels_recalculation(s: DiffStateView, r: DiffRecalculation, staging_count_later: nat)
    requires
        recalculation_of(r, s),
        s.staging_count_as_of_write <= s.staging_count,
        staging_count_later > s.staging_count,
    ensures
        !(staging_count_later <= r.staging_count_at_start),
{
}

/// A copy of an optional text.
fn copy_opt(o: &Option<String>) -> (r: Option<String>)
    ensures
        opt_view(r) == opt_view(*o),
{
    match o {
        Some(s) => Some(owned(s.as_str())),
        None => None,
    }
}

impl BufferGitState {
    /// Shared texts are one text.
    pub open spec fn well_formed(&self) -> bool {
        self.bases_shared ==> opt_view(self.index_text) == opt_view(self.head_text)
    }

    /// The state of a buffer with no diff open yet.
    pub fn new() -> (r: Self)
        ensures
            r.well_formed(),
            r@ == (DiffStateView {
                has_unstaged_diff: false,
                has_uncommitted_diff: false,
                staging_count: 0,
                staging_count_as_of_write: 0,
                head_text: None,
                index_text: None,
                bases_shared: false,
                head_changed: false,
                index_changed: false,
                language_changed: false,
                recalculating: false,
            }),
    {
        BufferGitState {
            has_unstaged_diff: false,
            has_uncommitted_diff: false,
            hunk_staging_operation_count: 0,
            hunk_staging_operation_count_as_of_write: 0,
            head_text: None,
            index_text: None,
            bases_shared: false,
            head_changed: false,
            index_changed: false,
            language_changed: false,
            recalculating: false,
        }
    }

    /// Starts a recalculation of the diffs: marks the state recalculating
    /// and returns what to compute.
    pub fn recalculate_diffs(&mut self) -> (r: DiffRecalculation)
        requires
            old(self).well_formed(),
        ensures
            final(self).well_formed(),
            final(self)@ == (DiffStateView { recalculating: true, ..old(self)@ }),
            recalculation_of(r, old(self)@),
    {
        self.recalculating = true;
        let matches_head = match (&self.index_text, &self.head_text) {
            (Some(_), Some(_)) => self.bases_shared,
            (None, None) => true,
            _ => false,
        };
        let uncommitted = if !self.has_uncommitted_diff {
            UncommittedUpdate::Skip
        } else if matches_head {
            UncommittedUpdate::SameAsUnstaged
        } else {
            UncommittedUpdate::Recompute
        };
        DiffRecalculation {
            update_unstaged: self.has_unstaged_diff,
            index_text: copy_opt(&self.index_text),
            index_changed: self.index_changed,
            uncommitted,
            head_text: copy_opt(&self.head_text),
            head_changed: self.head_changed,
            language_changed: self.language_changed,
            staging_count_at_start: self.hunk_staging_operation_count_as_of_write,
        }
    }

    /// Takes in a change of diff bases, as `bases_changed` says, and starts
    /// a recalculation of the diffs.
    pub fn diff_bases_changed(&mut self, change: Option<DiffBasesChange>) -> (r: DiffRecalculation)
        requires
            old(self).well_formed(),
        ensures
            final(self).well_formed(),
            final(self)@ == (DiffStateView {
                recalculating: true,
                ..bases_changed(old(self)@, opt_change_view(change))
            }),
            recalculation_of(r, bases_changed(old(self)@, opt_change_view(change))),
    {
        match change {
            Some(DiffBasesChange::SetIndex(index)) => {
                self.index_text = normalize_opt(index);
                self.index_changed = true;
                self.bases_shared = false;
            },
            Some(DiffBasesChange::SetHead(head)) => {
                self.head_text = normalize_opt(head);
                self.head_changed = true;
                self.bases_shared = false;
            },
            Some(DiffBasesChange::SetBoth(text)) => {
                let text = normalize_opt(text);
                self.head_text = copy_opt(&text);
                self.index_text = text;
                self.head_changed = true;
                self.index_changed = true;
                self.bases_shared = true;
            },
            Some(DiffBasesChange::SetEach { index, head }) => {
                self.index_text = normalize_opt(index);
                self.index_changed = true;
                self.head_text = normalize_opt(head);
                self.head_changed = true;
                self.bases_shared = false;
            },
            None => {},
        }
        self.recalculate_diffs()
    }

    /// The buffer's language changed: marks it and starts a recalculation.
    pub fn buffer_language_changed(&mut self) -> (r: DiffRecalculation)
        requires
            old(self).well_formed(),
        ensures
            final(self).well_formed(),
            final(self)@ == (DiffStateView { language_changed: true, recalculating: true, ..old(self)@ }),
            recalculation_of(r, DiffStateView { language_changed: true, ..old(self)@ }),
    {
        self.language_changed = true;
        self.recalculate_diffs()
    }

    /// Whether a caller has to wait for a recalculation in progress.
    pub fn wait_for_recalculation(&self) -> (r: bool)
        ensures
            r == self.recalculating,
    {
        self.recalculating
    }

    /// A recalculation that started at staging count `staging_count_at_start`
    /// finished: its results may be applied unless a hunk was staged or
    /// unstaged since, in which case the recalculation is given up.
    pub fn recalculation_may_apply(&mut self, staging_count_at_start: usize) -> (apply: bool)
        ensures
            apply == (old(self).hunk_staging_operation_count <= staging_count_at_start),
            apply ==> final(self)@ == old(self)@,
            !apply ==> final(self)@ == (DiffStateView { recalculating: false, ..old(self)@ }),
            final(self).well_formed() == old(self).well_formed(),
    {
        if self.hunk_staging_operation_count > staging_count_at_start {
            self.recalculating = false;
            false
        } else {
            true
        }
    }

    /// The results of a recalculation were applied: nothing is pending.
    pub fn recalculation_applied(&mut self)
        ensures
            final(self)@ == (DiffStateView {
                index_changed: false,
                head_changed: false,
                language_changed: false,
                recalculating: false,
                ..old(self)@
            }),
            final(self).well_formed() == old(self).well_formed(),
    {
        self.index_changed = false;
        self.head_changed = false;
        self.language_changed = false;
        self.recalculating = false;
    }

    /// Hunks were staged or unstaged: one more staging operation, whose
    /// number is returned.
    pub fn hunks_staged_or_unstaged(&mut self) -> (n: usize)
        requires
            old(self).hunk_staging_operation_count < usize::MAX,
        ensures
            n == old(self).hunk_staging_operation_count + 1,
            final(self)@ == (DiffStateView { staging_count: n as nat, ..old(self)@ }),
            final(self).well_formed() == old(self).well_formed(),
    {
        self.hunk_staging_operation_count = self.hunk_staging_operation_count + 1;
        self.hunk_staging_operation_count
    }

    /// The index write for staging operation `count` finished.
    pub fn index_text_written(&mut self, count: usize)
        ensures
            final(self)@ == (DiffStateView { staging_count_as_of_write: count as nat, ..old(self)@ }),
            final(self).well_formed() == old(self).well_formed(),
    {
        self.hunk_staging_operation_count_as_of_write = count;
    }

    /// A diff of the buffer was opened with the bases that were loaded for
    /// it.  Opening the uncommitted diff opens the unstaged one too, where it
    /// is not open; the first result says whether it was opened here.
    pub fn diff_opened(&mut self, kind: DiffKind, change: DiffBasesChange) -> (r: (bool, DiffRecalculation))
        requires
            old(self).well_formed(),
        ensures
            final(self).well_formed(),
            r.0 == (kind == DiffKind::Uncommitted && !old(self).has_unstaged_diff),
            ({
                let opened = DiffStateView {
                    has_unstaged_diff: true,
                    has_uncommitted_diff: old(self).has_uncommitted_diff || kind == DiffKind::Uncommitted,
                    ..old(self)@
                };
                &&& final(self)@ == (DiffStateView {
                    recalculating: true,
                    ..bases_changed(opened, Some(change@))
                })
                &&& recalculation_of(r.1, bases_changed(opened, Some(change@)))
            }),
    {
        let created_unstaged = match kind {
            DiffKind::Unstaged => false,
            DiffKind::Uncommitted => !self.has_unstaged_diff,
        };
        self.has_unstaged_diff = true;
        if kind == DiffKind::Uncommitted {
            self.has_uncommitted_diff = true;
        }
        let plan = self.diff_bases_changed(Some(change));
        (created_unstaged, plan)
    }

    /// What a reload of the diff bases reads for this buffer: the current
    /// index text where the unstaged diff is open, and the current head text
    /// where the uncommitted one is.
    pub fn reload_request(&self) -> (r: (Option<Option<String>>, Option<Option<String>>))
        ensures
            match r.0 {
                Some(t) => self.has_unstaged_diff && opt_view(t) == opt_view(self.index_text),
                None => !self.has_unstaged_diff,
            },
            match r.1 {
                Some(t) => self.has_uncommitted_diff && opt_view(t) == opt_view(self.head_text),
                None => !self.has_uncommitted_diff,
            },
    {
        let index = if self.has_unstaged_diff {
            Some(copy_opt(&self.index_text))
        } else {
            None
        };
        let head = if self.has_uncommitted_diff {
            Some(copy_opt(&self.head_text))
        } else {
            None
        };
        (index, head)
    }
}

/// Whether two optional texts differ.
fn opt_differs(a: &Option<String>, b: &Option<String>) -> (r: bool)
    ensures
        r == (opt_view(*a) != opt_view(*b)),
{
    match (a, b) {
        (Some(x), Some(y)) => !str_eq(x.as_str(), y.as_str()),
        (None, None) => false,
        _ => true,
    }
}

/// The change that a reload of the diff bases found: for each text that was
/// read (the current one is given), whether the loaded one differs from it;
/// both texts changing to one value set both, to different values each.
pub open spec fn reload_change(
    current_index: Option<Option<Seq<char>>>,
    current_head: Option<Option<Seq<char>>>,
    index: Option<Seq<char>>,
    head: Option<Seq<char>>,
) -> Option<BasesChangeView> {
    match (current_index, current_head) {
        (Some(ci), Some(ch)) => {
            let index_changed = index != ci;
            let head_changed = head != ch;
            if index_changed && head_changed {
                if index == head {
                    Some(BasesChangeView::SetBoth(head))
                } else {
                    Some(BasesChangeView::SetEach(index, head))
                }
            } else if index_changed {
                Some(BasesChangeView::SetIndex(index))
            } else if head_changed {
                Some(BasesChangeView::SetHead(head))
            } else {
                None
            }
        },
        (Some(ci), None) => if index != ci {
            Some(BasesChangeView::SetIndex(index))
        } else {
            None
        },
        (None, Some(ch)) => if head != ch {
            Some(BasesChangeView::SetHead(head))
        } else {
            None
        },
        (None, None) => None,
    }
}

/// An optional pair of optional texts, as plain values.
pub open spec fn current_view(c: Option<Option<String>>) -> Option<Option<Seq<char>>> {
    match c {
        Some(t) => Some(opt_view(t)),
        None => None,
    }
}

/// The change of diff bases after a reload, as `reload_change` says.
pub fn diff_bases_after_reload(
    current_index: Option<Option<String>>,
    current_head: Option<Option<String>>,
    index_text: Option<String>,
    head_text: Option<String>,
) -> (r: Option<DiffBasesChange>)
    ensures
        opt_change_view(r) == reload_change(
            current_view(current_index),
            current_view(current_head),
            opt_view(index_text),
            opt_view(head_text),
        ),
{
    match (current_index, current_head) {
        (Some(ci), Some(ch)) => {
            let index_changed = opt_differs(&index_text, &ci);
            let head_changed = opt_differs(&head_text, &ch);
            if index_changed && head_changed {
                if !opt_differs(&index_text, &head_text) {
                    Some(DiffBasesChange::SetBoth(head_text))
                } else {
                    Some(DiffBasesChange::SetEach { index: index_text, head: head_text })
                }
            } else if index_changed {
                Some(DiffBasesChange::SetIndex(index_text))
            } else if head_changed {
                Some(DiffBasesChange::SetHead(head_text))
            } else {
                None
            }
        },
        (Some(ci), None) => {
            if opt_differs(&index_text, &ci) {
                Some(DiffBasesChange::SetIndex(index_text))
            } else {
                None
            }
        },
        (None, Some(ch)) => {
            if opt_differs(&head_text, &ch) {
                Some(DiffBasesChange::SetHead(head_text))
            } else {
                None
            }
        },
        (None, None) => None,
    }
}

/// The bases of a newly opened uncommitted diff, from the committed and the
/// staged text: one shared text where they are equal, else each.
pub fn diff_bases_from_repository(committed: Option<String>, staged: Option<String>) -> (r: DiffBasesChange)
    ensures
        r@ == (if opt_view(committed) == opt_view(staged) {
            BasesChangeView::SetBoth(opt_view(committed))
        } else {
            BasesChangeView::SetEach(opt_view(staged), opt_view(committed))
        }),
{
    if !opt_differs(&committed, &staged) {
        DiffBasesChange::SetBoth(committed)
    } else {
        DiffBasesChange::SetEach { index: staged, head: committed }
    }
}

} // verus!
