//! The view: an ordered, filterable projection over the snapshot collection.
//! Snapshots live in a flat arena; the view holds the conjunctive filter
//! stack, the arena indices of the currently visible snapshots in stable
//! (insertion) order, and a selection cursor into that visible sequence.
//! Filtering and cursor movement never touch snapshot data.

use vstd::prelude::*;

use crate::parser::{FilterPred, FilterPredModel};
use crate::snapshot::{Snapshot, SnapshotModel};
use crate::text::is_substring;

verus! {

/// Whether one snapshot satisfies one predicate.
pub open spec fn pred_matches(s: SnapshotModel, p: FilterPredModel) -> bool {
    match p {
        FilterPredModel::ByTag(t) => s.tags.contains(t),
        FilterPredModel::ByStatus(st) => s.status == st,
        FilterPredModel::ByName(sub) => is_substring(s.name, sub),
        FilterPredModel::BySubstring(sub) => is_substring(s.name, sub) || is_substring(s.cmd, sub),
    }
}

/// Whether a snapshot satisfies every predicate of the stack (conjunctive).
pub open spec fn matches_all(s: SnapshotModel, fs: Seq<FilterPredModel>) -> bool {
    forall|i: int| 0 <= i < fs.len() ==> pred_matches(s, #[trigger] fs[i])
}

/// The arena indices, in increasing order, of the first `n` snapshots that
/// satisfy the whole filter stack.
pub open spec fn visible_upto(
    snaps: Seq<SnapshotModel>,
    fs: Seq<FilterPredModel>,
    n: int,
) -> Seq<usize>
    decreases n,
{
    if n <= 0 {
        Seq::<usize>::empty()
    } else {
        visible_upto(snaps, fs, n - 1) + if matches_all(snaps[n - 1], fs) {
            seq![(n - 1) as usize]
        } else {
            Seq::<usize>::empty()
        }
    }
}

/// The visible sequence a filter stack induces over an arena.
pub open spec fn spec_visible(snaps: Seq<SnapshotModel>, fs: Seq<FilterPredModel>) -> Seq<usize> {
    visible_upto(snaps, fs, snaps.len() as int)
}

/// Every visible entry is in range, satisfies the stack, and the sequence is
/// strictly increasing; conversely every matching snapshot is visible.
pub proof fn lemma_visible_props(snaps: Seq<SnapshotModel>, fs: Seq<FilterPredModel>, n: int)
    requires
        0 <= n <= snaps.len(),
        snaps.len() <= usize::MAX,
    ensures
        forall|k: int|
            0 <= k < visible_upto(snaps, fs, n).len() ==> (#[trigger] visible_upto(snaps, fs, n)[k]
                < n && matches_all(snaps[visible_upto(snaps, fs, n)[k] as int], fs)),
        forall|k1: int, k2: int|
            0 <= k1 < k2 < visible_upto(snaps, fs, n).len() ==> visible_upto(snaps, fs, n)[k1]
                < visible_upto(snaps, fs, n)[k2],
        forall|i: int|
            0 <= i < n && matches_all(snaps[i], fs) ==> visible_upto(snaps, fs, n).contains(
                i as usize,
            ),
    decreases n,
{
    if n > 0 {
        lemma_visible_props(snaps, fs, n - 1);
        let prev = visible_upto(snaps, fs, n - 1);
        let cur = visible_upto(snaps, fs, n);
        if matches_all(snaps[n - 1], fs) {
            assert(cur =~= prev + seq![(n - 1) as usize]);
            assert forall|k: int| 0 <= k < cur.len() implies (#[trigger] cur[k] < n && matches_all(
                snaps[cur[k] as int],
                fs,
            )) by {
                if k < prev.len() {
                    assert(cur[k] == prev[k]);
                    assert(prev[k] < n - 1 && matches_all(snaps[prev[k] as int], fs));
                } else {
                    assert(cur[k] == (n - 1) as usize);
                }
            }
            assert forall|k1: int, k2: int| 0 <= k1 < k2 < cur.len() implies cur[k1]
                < cur[k2] by {
                assert(cur[k1] == prev[k1]);
                assert(prev[k1] < n - 1 && matches_all(snaps[prev[k1] as int], fs));
                if k2 < prev.len() {
                    assert(cur[k2] == prev[k2]);
                } else {
                    assert(cur[k2] == (n - 1) as usize);
                }
            }
            assert forall|i: int|
                0 <= i < n && matches_all(snaps[i], fs) implies cur.contains(i as usize) by {
                if i < n - 1 {
                    assert(prev.contains(i as usize));
                    let w = choose|w: int| 0 <= w < prev.len() && prev[w] == i as usize;
                    assert(cur[w] == i as usize);
                } else {
                    assert(cur[cur.len() - 1] == i as usize);
                }
            }
        } else {
            assert(cur =~= prev);
        }
    }
}

/// With an empty filter stack every snapshot is visible.
pub proof fn lemma_visible_empty_filters(snaps: Seq<SnapshotModel>, n: int)
    requires
        0 <= n <= snaps.len(),
        snaps.len() <= usize::MAX,
    ensures
        visible_upto(snaps, Seq::<FilterPredModel>::empty(), n).len() == n,
    decreases n,
{
    if n > 0 {
        lemma_visible_empty_filters(snaps, n - 1);
    }
}

/// A predicate no snapshot satisfies empties the view: pushing it leaves
/// nothing visible, whatever else is on the stack.
pub proof fn lemma_filter_matches_nothing(
    snaps: Seq<SnapshotModel>,
    fs: Seq<FilterPredModel>,
    p: FilterPredModel,
    n: int,
)
    requires
        0 <= n <= snaps.len(),
        snaps.len() <= usize::MAX,
        forall|i: int| 0 <= i < snaps.len() ==> !pred_matches(#[trigger] snaps[i], p),
    ensures
        visible_upto(snaps, fs.push(p), n).len() == 0,
    decreases n,
{
    if n > 0 {
        lemma_filter_matches_nothing(snaps, fs, p, n - 1);
        assert(fs.push(p)[fs.len() as int] == p);
        assert(!matches_all(snaps[n - 1], fs.push(p)));
    }
}

/// The interactive view over the snapshot arena.
pub struct SnapshotView {
    /// The arena: owns every snapshot, in insertion order.
    pub snaps: Vec<Snapshot>,
    /// The active filter stack; conjunctive, in application order.
    pub filters: Vec<FilterPred>,
    /// Arena indices of the visible snapshots, increasing.
    pub visible: Vec<usize>,
    /// Cursor into `visible`; none exactly when nothing is visible.
    pub cursor: Option<usize>,
}

impl SnapshotView {
    /// Well-formedness: visible indices are in range and strictly increasing,
    /// and the cursor addresses a visible entry, or is absent exactly when
    /// the visible sequence is empty.
    pub open spec fn wf(self) -> bool {
        &&& forall|k: int| 0 <= k < self.visible@.len() ==> #[trigger] self.visible@[k]
            < self.snaps@.len()
        &&& forall|k1: int, k2: int|
            0 <= k1 < k2 < self.visible@.len() ==> self.visible@[k1] < self.visible@[k2]
        &&& match self.cursor {
            Some(c) => c < self.visible@.len(),
            None => self.visible@.len() == 0,
        }
    }

    /// The snapshot models held in the arena.
    pub open spec fn snaps_dv(self) -> Seq<SnapshotModel> {
        self.snaps.deep_view()
    }

    /// The filter models on the stack.
    pub open spec fn filters_dv(self) -> Seq<FilterPredModel> {
        self.filters.deep_view()
    }

    /// The arena index of the selected snapshot, if any.
    pub open spec fn spec_selected(self) -> Option<usize> {
        match self.cursor {
            Some(c) => Some(self.visible@[c as int]),
            None => None,
        }
    }

    /// A fresh view over an arena: no filter, everything visible, the first
    /// snapshot selected when there is one.
    pub fn new(snaps: Vec<Snapshot>) -> (v: SnapshotView)
        ensures
            v.wf(),
            v.snaps_dv() == snaps.deep_view(),
            v.filters_dv() == Seq::<FilterPredModel>::empty(),
            v.visible@ == spec_visible(snaps.deep_view(), Seq::<FilterPredModel>::empty()),
            v.visible@.len() == snaps.deep_view().len(),
            v.cursor == (if snaps.deep_view().len() > 0 {
                Some(0usize)
            } else {
                None::<usize>
            }),
    {
        let filters: Vec<FilterPred> = Vec::new();
        proof {
            assert(filters.deep_view() =~= Seq::<FilterPredModel>::empty());
        }
        let visible = compute_visible(&snaps, &filters);
        let cursor: Option<usize> = if visible.len() > 0 {
            Some(0)
        } else {
            None
        };
        let v = SnapshotView { snaps, filters, visible, cursor };
        proof {
            broadcast use vstd::std_specs::vec::axiom_spec_len;

            assert(v.snaps.len() == v.snaps@.len());
            assert(v.snaps@.len() <= usize::MAX);
            assert(v.snaps_dv().len() == v.snaps@.len());
            lemma_visible_props(v.snaps_dv(), v.filters_dv(), v.snaps_dv().len() as int);
            lemma_visible_empty_filters(v.snaps_dv(), v.snaps_dv().len() as int);
        }
        v
    }

    /// Pushes one more predicate onto the stack (cumulative AND), recomputes
    /// the visible sequence, and re-clamps the cursor: a still-visible
    /// selection is kept by identity, otherwise the first visible entry (or
    /// nothing) is selected. When the new predicate matches no snapshot at
    /// all, nothing is selected any more. Snapshot data is never touched.
    pub fn apply_filter(&mut self, pred: FilterPred)
        requires
            old(self).wf(),
        ensures
            final(self).wf(),
            final(self).snaps_dv() == old(self).snaps_dv(),
            final(self).filters_dv() == old(self).filters_dv().push(pred@),
            final(self).visible@ == spec_visible(
                old(self).snaps_dv(),
                old(self).filters_dv().push(pred@),
            ),
            ({
                let sel = old(self).spec_selected();
                if sel is Some && final(self).visible@.contains(sel->0) {
                    final(self).spec_selected() == sel
                } else {
                    final(self).cursor == (if final(self).visible@.len() > 0 {
                        Some(0usize)
                    } else {
                        None::<usize>
                    })
                }
            }),
            (forall|i: int|
                0 <= i < old(self).snaps_dv().len() ==> !pred_matches(
                    #[trigger] old(self).snaps_dv()[i],
                    pred@,
                )) ==> final(self).spec_selected() is None,
    {
        let ghost pm = pred@;
        let ghost old_filters = self.filters.deep_view();
        let sel: Option<usize> = match self.cursor {
            Some(c) => Some(self.visible[c]),
            None => None,
        };
        self.filters.push(pred);
        proof {
            assert(self.filters.deep_view() =~= old_filters.push(pm));
        }
        let vis = compute_visible(&self.snaps, &self.filters);
        self.visible = vis;
        proof {
            broadcast use vstd::std_specs::vec::axiom_spec_len;

            assert(self.snaps.len() == self.snaps@.len());
            assert(self.snaps_dv().len() == self.snaps@.len());
            lemma_visible_props(self.snaps_dv(), self.filters_dv(), self.snaps_dv().len() as int);
        }
        let mut pos: Option<usize> = None;
        if let Some(a) = sel {
            let mut k: usize = 0;
            while k < self.visible.len()
                invariant
                    k <= self.visible@.len(),
                    pos is None,
                    forall|j: int| 0 <= j < k ==> self.visible@[j] != a,
                ensures
                    k <= self.visible@.len(),
                    k < self.visible@.len() ==> self.visible@[k as int] == a,
                    k == self.visible@.len() ==> !self.visible@.contains(a),
                decreases self.visible@.len() - k,
            {
                if self.visible[k] == a {
                    break;
                }
                k = k + 1;
            }
            if k < self.visible.len() {
                pos = Some(k);
            }
        }
        match pos {
            Some(k) => {
                self.cursor = Some(k);
            },
            None => {
                if self.visible.len() > 0 {
                    self.cursor = Some(0);
                } else {
                    self.cursor = None;
                }
            },
        }
        proof {
            assert(old(self).snaps == self.snaps);
            if forall|i: int|
                0 <= i < old(self).snaps_dv().len() ==> !pred_matches(
                    #[trigger] old(self).snaps_dv()[i],
                    pm,
                ) {
                lemma_filter_matches_nothing(
                    old(self).snaps_dv(),
                    old_filters,
                    pm,
                    old(self).snaps_dv().len() as int,
                );
                assert(self.visible@.len() == 0);
            }
        }
    }

    /// Empties the filter stack: everything becomes visible again (one entry
    /// per snapshot in the arena) and the cursor resets to the first entry
    /// when the arena is not empty.
    pub fn clear_filters(&mut self)
        requires
            old(self).wf(),
        ensures
            final(self).wf(),
            final(self).snaps_dv() == old(self).snaps_dv(),
            final(self).filters_dv() == Seq::<FilterPredModel>::empty(),
            final(self).visible@ == spec_visible(
                old(self).snaps_dv(),
                Seq::<FilterPredModel>::empty(),
            ),
            final(self).visible@.len() == old(self).snaps_dv().len(),
            final(self).cursor == (if old(self).snaps_dv().len() > 0 {
                Some(0usize)
            } else {
                None::<usize>
            }),
    {
        self.filters.clear();
        proof {
            assert(self.filters.deep_view() =~= Seq::<FilterPredModel>::empty());
        }
        let vis = compute_visible(&self.snaps, &self.filters);
        self.visible = vis;
        proof {
            broadcast use vstd::std_specs::vec::axiom_spec_len;

            assert(self.snaps.len() == self.snaps@.len());
            assert(self.snaps_dv().len() == self.snaps@.len());
            lemma_visible_props(self.snaps_dv(), self.filters_dv(), self.snaps_dv().len() as int);
            lemma_visible_empty_filters(self.snaps_dv(), self.snaps_dv().len() as int);
        }
        if self.visible.len() > 0 {
            self.cursor = Some(0);
        } else {
            self.cursor = None;
        }
    }

    /// Moves the cursor one entry toward the top of the visible sequence,
    /// saturating at the first entry.
    pub fn up(&mut self)
        requires
            old(self).wf(),
        ensures
            final(self).wf(),
            final(self).snaps == old(self).snaps,
            final(self).filters == old(self).filters,
            final(self).visible == old(self).visible,
            final(self).cursor == (match old(self).cursor {
                None => None::<usize>,
                Some(c) => Some((if c > 0 {
                    c - 1
                } else {
                    0
                }) as usize),
            }),
    {
        match self.cursor {
            Some(c) => {
                if c > 0 {
                    self.cursor = Some(c - 1);
                }
            },
            None => {},
        }
    }

    /// Moves the cursor one entry toward the bottom of the visible sequence,
    /// saturating at the last entry.
    pub fn down(&mut self)
        requires
            old(self).wf(),
        ensures
            final(self).wf(),
            final(self).snaps == old(self).snaps,
            final(self).filters == old(self).filters,
            final(self).visible == old(self).visible,
            final(self).cursor == (match old(self).cursor {
                None => None::<usize>,
                Some(c) => Some(
                    (if c + 1 < old(self).visible@.len() {
                        c + 1
                    } else {
                        c as int
                    }) as usize,
                ),
            }),
    {
        match self.cursor {
            Some(c) => {
                let len = self.visible.len();
                if c < len - 1 {
                    self.cursor = Some(c + 1);
                }
            },
            None => {},
        }
    }

    /// The arena indices of the currently visible snapshots, in stable order.
    pub fn get_view(&self) -> (r: Vec<usize>)
        ensures
            r@ == self.visible@,
    {
        vstd::slice::slice_to_vec(self.visible.as_slice())
    }

    /// The arena index of the selected snapshot, if any.
    pub fn selected_index(&self) -> (r: Option<usize>)
        requires
            self.wf(),
        ensures
            r == self.spec_selected(),
    {
        match self.cursor {
            Some(c) => Some(self.visible[c]),
            None => None,
        }
    }

    /// The selected snapshot, if any.
    pub fn get_selected(&self) -> (r: Option<&Snapshot>)
        requires
            self.wf(),
        ensures
            match self.spec_selected() {
                Some(a) => r is Some && r->0@ == self.snaps_dv()[a as int],
                None => r is None,
            },
    {
        proof {
            lemma_snapshot_views(self.snaps@);
        }
        match self.cursor {
            Some(c) => Some(&self.snaps[self.visible[c]]),
            None => None,
        }
    }

    /// Applies a metadata edit to the selected snapshot, if there is one:
    /// reports whether anything changed; with nothing selected, nothing
    /// happens. Presentation state stays put.
    pub fn edit_selected(&mut self, edit: &crate::snapshot::EditOutcome) -> (r: Option<bool>)
        requires
            old(self).wf(),
        ensures
            final(self).wf(),
            final(self).filters == old(self).filters,
            final(self).visible == old(self).visible,
            final(self).cursor == old(self).cursor,
            final(self).snaps_dv().len() == old(self).snaps_dv().len(),
            match old(self).spec_selected() {
                None => r is None && final(self).snaps == old(self).snaps,
                Some(a) => r == Some(crate::snapshot::spec_edit(
                    old(self).snaps_dv()[a as int],
                    edit@,
                ).1) && final(self).snaps_dv() == old(self).snaps_dv().update(
                    a as int,
                    crate::snapshot::spec_edit(old(self).snaps_dv()[a as int], edit@).0,
                ),
            },
    {
        match self.selected_index() {
            None => None,
            Some(a) => {
                let ghost before = self.snaps@;
                proof {
                    lemma_snapshot_views(self.snaps@);
                }
                let mut s = self.snaps.remove(a);
                let changed = crate::snapshot::edit_snapshot(&mut s, edit);
                self.snaps.insert(a, s);
                proof {
                    assert(self.snaps@ =~= before.update(a as int, s));
                    lemma_snapshot_views(self.snaps@);
                    lemma_snapshot_views(before);
                    assert(self.snaps_dv() =~= old(self).snaps_dv().update(
                        a as int,
                        crate::snapshot::spec_edit(old(self).snaps_dv()[a as int], edit@).0,
                    ));
                }
                Some(changed)
            },
        }
    }

    /// The snapshot at one arena index.
    pub fn snapshot_at(&self, i: usize) -> (r: &Snapshot)
        requires
            i < self.snaps_dv().len(),
        ensures
            r@ == self.snaps_dv()[i as int],
    {
        proof {
            lemma_snapshot_views(self.snaps@);
        }
        &self.snaps[i]
    }
}

/// The deep view of a snapshot vector is its snapshots' models, position by
/// position.
pub proof fn lemma_snapshot_views(ts: Seq<Snapshot>)
    ensures
        Seq::new(ts.len(), |k: int| ts[k].deep_view()).len() == ts.len(),
        forall|k: int|
            0 <= k < ts.len() ==> Seq::new(ts.len(), |q: int| ts[q].deep_view())[k] == ts[k]@,
{
}

/// Decides one predicate against one snapshot.
pub fn pred_matches_exec(s: &Snapshot, p: &FilterPred) -> (r: bool)
    ensures
        r == pred_matches(s@, p@),
{
    match p {
        FilterPred::ByTag(t) => {
            let mut i: usize = 0;
            while i < s.tags.len()
                invariant
                    i <= s.tags@.len(),
                    s@.tags.len() == s.tags@.len(),
                    forall|k: int| 0 <= k < s.tags@.len() ==> #[trigger] s@.tags[k] == s.tags@[k]@,
                    forall|k: int| 0 <= k < i ==> s@.tags[k] != t@,
                ensures
                    i <= s.tags@.len(),
                    i < s.tags@.len() ==> s@.tags[i as int] == t@,
                    i == s.tags@.len() ==> forall|k: int| 0 <= k < i ==> s@.tags[k] != t@,
                decreases s.tags@.len() - i,
            {
                if s.tags[i].eq(t) {
                    proof {
                        assert(s@.tags[i as int] == t@);
                    }
                    break;
                }
                proof {
                    assert(s@.tags[i as int] != t@);
                }
                i = i + 1;
            }
            if i < s.tags.len() {
                proof {
                    assert(s@.tags.contains(t@));
                }
                true
            } else {
                proof {
                    assert(!s@.tags.contains(t@));
                }
                false
            }
        },
        FilterPred::ByStatus(st) => s.status == *st,
        FilterPred::ByName(sub) => crate::text::contains_sub(s.name.as_str(), sub.as_str()),
        FilterPred::BySubstring(sub) => {
            crate::text::contains_sub(s.name.as_str(), sub.as_str()) || crate::text::contains_sub(
                s.cmd.as_str(),
                sub.as_str(),
            )
        },
    }
}

/// Decides the whole filter stack against one snapshot.
pub fn matches_all_exec(s: &Snapshot, fs: &Vec<FilterPred>) -> (r: bool)
    ensures
        r == matches_all(s@, fs.deep_view()),
{
    let mut i: usize = 0;
    while i < fs.len()
        invariant
            i <= fs@.len(),
            fs.deep_view().len() == fs@.len(),
            forall|k: int| 0 <= k < fs@.len() ==> #[trigger] fs.deep_view()[k] == fs@[k]@,
            forall|k: int| 0 <= k < i ==> pred_matches(s@, #[trigger] fs.deep_view()[k]),
        decreases fs@.len() - i,
    {
        if !pred_matches_exec(s, &fs[i]) {
            proof {
                assert(!pred_matches(s@, fs.deep_view()[i as int]));
            }
            return false;
        }
        i = i + 1;
    }
    true
}

/// Computes the visible sequence a filter stack induces over an arena.
pub fn compute_visible(snaps: &Vec<Snapshot>, filters: &Vec<FilterPred>) -> (vis: Vec<usize>)
    ensures
        vis@ == spec_visible(snaps.deep_view(), filters.deep_view()),
{
    let mut vis: Vec<usize> = Vec::new();
    let mut i: usize = 0;
    proof {
        assert(vis@ =~= visible_upto(snaps.deep_view(), filters.deep_view(), 0));
    }
    while i < snaps.len()
        invariant
            i <= snaps@.len(),
            snaps.deep_view().len() == snaps@.len(),
            forall|k: int| 0 <= k < snaps@.len() ==> #[trigger] snaps.deep_view()[k] == snaps@[k]@,
            vis@ == visible_upto(snaps.deep_view(), filters.deep_view(), i as int),
        decreases snaps@.len() - i,
    {
        let ghost vis0 = vis@;
        if matches_all_exec(&snaps[i], filters) {
            vis.push(i);
            proof {
                assert(vis@ =~= vis0 + seq![i as usize]);
                assert(vis@ =~= visible_upto(snaps.deep_view(), filters.deep_view(), i as int + 1));
            }
        } else {
            proof {
                assert(vis@ =~= visible_upto(snaps.deep_view(), filters.deep_view(), i as int + 1));
            }
        }
        i = i + 1;
    }
    vis
}

} // verus!
