//! The session context: owns the view over the snapshot collection that the
//! interactive loop drives. Loading snapshots from the store, running
//! commands and rendering are the caller's business; the context holds the
//! state their results are applied to.

use vstd::prelude::*;

use crate::parser::FilterPredModel;
use crate::snapshot::Snapshot;
use crate::view::{spec_visible, SnapshotView};

verus! {

/// The state of one interactive session.
pub struct Context {
    /// The view over the snapshot arena.
    pub view: SnapshotView,
}

impl Context {
    /// A fresh context over the snapshots loaded from the store: no filter,
    /// everything visible, the first snapshot selected when there is one.
    pub fn new(snapshots: Vec<Snapshot>) -> (c: Context)
        ensures
            c.view.wf(),
            c.view.snaps_dv() == snapshots.deep_view(),
            c.view.filters_dv() == Seq::<FilterPredModel>::empty(),
            c.view.visible@ == spec_visible(
                snapshots.deep_view(),
                Seq::<FilterPredModel>::empty(),
            ),
            c.view.visible@.len() == snapshots.deep_view().len(),
            c.view.cursor == (if snapshots.deep_view().len() > 0 {
                Some(0usize)
            } else {
                None::<usize>
            }),
    {
        Context { view: SnapshotView::new(snapshots) }
    }
}

} // verus!
