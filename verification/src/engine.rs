//! Reconciliation engine: run a snapshot's command (done by the caller, which
//! hands the fresh `ExecResult` in) and either verify the stored truth
//! (`run_snapshot`) or accept the fresh output as the new truth
//! (`update_snapshot`).

use vstd::prelude::*;
use vstd::slice::slice_to_vec;

use crate::snapshot::{BlobModel, ExecModel, ExecResult, Snapshot, SnapshotData, SnapshotModel, SnapshotStatus};
use crate::view::{lemma_snapshot_views, SnapshotView};

verus! {

/// The bytes a stored stream stands for: an absent stream compares as empty.
pub open spec fn stored_stream(b: Option<BlobModel>) -> Seq<u8> {
    match b {
        Some(d) => d.body,
        None => Seq::<u8>::empty(),
    }
}

/// A run passes exactly when both streams and the exit code of the fresh
/// result agree with the stored truth, byte for byte and value for value.
pub open spec fn spec_run_pass(s: SnapshotModel, r: ExecModel) -> bool {
    &&& r.stdout == stored_stream(s.stdout)
    &&& r.stderr == stored_stream(s.stderr)
    &&& r.exit_code == s.exit_code
}

/// Effect of a run on the snapshot: only the status moves, to `Passed` on a
/// match and `Failed` otherwise; the stored content is never touched.
pub open spec fn spec_run(s: SnapshotModel, r: ExecModel) -> SnapshotModel {
    SnapshotModel {
        status: if spec_run_pass(s, r) {
            SnapshotStatus::Passed
        } else {
            SnapshotStatus::Failed
        },
        ..s
    }
}

/// The blob a captured stream is stored as: no bytes means no blob, otherwise
/// a named blob carrying the snapshot's name and the stream's extension.
pub open spec fn spec_blob(body: Seq<u8>, name: Seq<char>, extension: Seq<char>) -> Option<
    BlobModel,
> {
    if body.len() == 0 {
        None
    } else {
        Some(BlobModel { name: name, extension: extension, body: body })
    }
}

/// Effect of an update: the stored exit code and streams are replaced by the
/// fresh ones (field-wise), the status always becomes `Passed`, and the second
/// component says whether any field actually changed.
pub open spec fn spec_update(s: SnapshotModel, r: ExecModel) -> (SnapshotModel, bool) {
    let new_stdout = spec_blob(r.stdout, s.name, ".out"@);
    let new_stderr = spec_blob(r.stderr, s.name, ".err"@);
    let changed = s.exit_code != r.exit_code || s.stdout != new_stdout || s.stderr != new_stderr;
    (
        SnapshotModel {
            exit_code: r.exit_code,
            stdout: new_stdout,
            stderr: new_stderr,
            status: SnapshotStatus::Passed,
            ..s
        },
        changed,
    )
}

/// Byte-blob equality, decided executably.
pub fn bytes_eq(a: &Vec<u8>, b: &Vec<u8>) -> (r: bool)
    ensures
        r == (a@ == b@),
{
    let r = a == b;
    proof {
        if a@.len() == b@.len() && (forall|i: int| 0 <= i < a@.len() ==> a@[i] == b@[i]) {
            assert(a@ =~= b@);
        }
    }
    r
}

/// Equality of two optional stored blobs, decided executably.
pub fn blob_eq(a: &Option<SnapshotData>, b: &Option<SnapshotData>) -> (r: bool)
    ensures
        r == (a.deep_view() == b.deep_view()),
{
    match (a, b) {
        (None, None) => true,
        (Some(x), Some(y)) => {
            let r = x.name == y.name && x.extension == y.extension && bytes_eq(&x.body, &y.body);
            proof {
                if r {
                    assert(x@ =~= y@);
                }
            }
            r
        },
        _ => false,
    }
}

/// Packs one captured stream as a stored blob, named after the snapshot.
pub fn to_snapshot_data(body: Vec<u8>, name: &String, extension: &str) -> (r: Option<SnapshotData>)
    ensures
        r.deep_view() == spec_blob(body@, name@, extension@),
{
    if body.len() == 0 {
        proof {
            assert(body@.len() == 0);
        }
        None
    } else {
        Some(
            SnapshotData {
                name: name.clone(),
                extension: String::from_str(extension),
                body: body,
            },
        )
    }
}

/// Verifies a snapshot against the fresh result of its command: compares both
/// streams and the exit code, records the verdict in `status`, and returns
/// whether the run passed. Stored content is left untouched.
pub fn run_snapshot(snap: &mut Snapshot, result: &ExecResult) -> (pass: bool)
    ensures
        final(snap)@ == spec_run(old(snap)@, result@),
        pass == spec_run_pass(old(snap)@, result@),
{
    let stdout_eq = match &snap.stdout {
        Some(d) => bytes_eq(&result.stdout, &d.body),
        None => result.stdout.len() == 0,
    };
    let stderr_eq = match &snap.stderr {
        Some(d) => bytes_eq(&result.stderr, &d.body),
        None => result.stderr.len() == 0,
    };
    let code_eq = snap.exit_code == result.exit_code;
    proof {
        assert(result@.stdout.len() == 0 ==> result@.stdout =~= Seq::<u8>::empty());
        assert(result@.stderr.len() == 0 ==> result@.stderr =~= Seq::<u8>::empty());
    }
    let pass = stdout_eq && stderr_eq && code_eq;
    if pass {
        snap.status = SnapshotStatus::Passed;
    } else {
        snap.status = SnapshotStatus::Failed;
    }
    pass
}

/// Accepts the fresh result as the snapshot's new truth: replaces exit code
/// and streams where they differ, always sets the status to `Passed`, and
/// returns whether anything changed.
pub fn update_snapshot(snap: &mut Snapshot, result: &ExecResult) -> (changed: bool)
    ensures
        final(snap)@ == spec_update(old(snap)@, result@).0,
        changed == spec_update(old(snap)@, result@).1,
{
    let new_stdout = to_snapshot_data(slice_to_vec(result.stdout.as_slice()), &snap.name, ".out");
    let new_stderr = to_snapshot_data(slice_to_vec(result.stderr.as_slice()), &snap.name, ".err");
    let mut changed = false;
    if snap.exit_code != result.exit_code {
        snap.exit_code = result.exit_code;
        changed = true;
    }
    if !blob_eq(&snap.stdout, &new_stdout) {
        snap.stdout = new_stdout;
        changed = true;
    }
    if !blob_eq(&snap.stderr, &new_stderr) {
        snap.stderr = new_stderr;
        changed = true;
    }
    snap.status = SnapshotStatus::Passed;
    changed
}

/// Builds a snapshot from a fresh capture: the streams become blobs named
/// after the snapshot, and the status starts out unknown until a run or an
/// update records a verdict.
pub fn to_snapshot(
    name: String,
    description: Option<String>,
    tags: Vec<String>,
    cmd: String,
    result: ExecResult,
) -> (s: Snapshot)
    ensures
        s@.name == name@,
        s@.cmd == cmd@,
        s@.description == description.deep_view(),
        s@.tags == tags.deep_view(),
        s@.exit_code == result.exit_code,
        s@.stdout == spec_blob(result.stdout@, name@, ".out"@),
        s@.stderr == spec_blob(result.stderr@, name@, ".err"@),
        s@.status == SnapshotStatus::Unknown,
{
    let stdout = to_snapshot_data(result.stdout, &name, ".out");
    let stderr = to_snapshot_data(result.stderr, &name, ".err");
    Snapshot {
        name,
        cmd,
        description,
        tags,
        exit_code: result.exit_code,
        stdout,
        stderr,
        status: SnapshotStatus::Unknown,
    }
}

/// The models of a sequence of execution results.
pub open spec fn exec_models(rs: Seq<ExecResult>) -> Seq<ExecModel> {
    Seq::new(rs.len(), |i: int| rs[i]@)
}

/// How many of the visible snapshots an update with these results changes.
pub open spec fn spec_update_count(
    snaps: Seq<SnapshotModel>,
    vis: Seq<usize>,
    rs: Seq<ExecModel>,
    k: int,
) -> int
    decreases k,
{
    if k <= 0 {
        0
    } else {
        spec_update_count(snaps, vis, rs, k - 1) + if spec_update(
            snaps[vis[k - 1] as int],
            rs[k - 1],
        ).1 {
            1int
        } else {
            0int
        }
    }
}

/// Membership in one more element of a prefix.
proof fn lemma_prefix_contains(v: Seq<usize>, k: int)
    requires
        0 <= k < v.len(),
    ensures
        forall|x: usize|
            v.subrange(0, k + 1).contains(x) <==> (v.subrange(0, k).contains(x) || v[k] == x),
{
    assert(v.subrange(0, k + 1) =~= v.subrange(0, k).push(v[k]));
    assert forall|x: usize|
        v.subrange(0, k + 1).contains(x) <==> (v.subrange(0, k).contains(x) || v[k]
            == x) by {
        let a = v.subrange(0, k);
        let b = v.subrange(0, k + 1);
        if b.contains(x) {
            let w = choose|w: int| 0 <= w < b.len() && b[w] == x;
            if w < k {
                assert(a[w] == x);
            }
        }
        if a.contains(x) {
            let w = choose|w: int| 0 <= w < a.len() && a[w] == x;
            assert(b[w] == x);
        }
        if v[k] == x {
            assert(b[k] == x);
        }
    }
}

/// Takes the snapshot at one arena index out, hands it to the caller's
/// mutation, and puts it back: seen from outside, a point update.
fn take_snap(snaps: &mut Vec<Snapshot>, i: usize) -> (s: Snapshot)
    requires
        i < old(snaps)@.len(),
    ensures
        s == old(snaps)@[i as int],
        final(snaps)@ == old(snaps)@.remove(i as int),
{
    snaps.remove(i)
}

/// Runs every visible snapshot against its fresh result (one result per
/// visible entry, in view order): each gets its verdict recorded, nothing
/// else in the arena moves, and the whole run succeeds exactly when every
/// single one matched.
pub fn run_view(view: &mut SnapshotView, results: &Vec<ExecResult>) -> (success: bool)
    requires
        old(view).wf(),
        results@.len() == old(view).visible@.len(),
    ensures
        final(view).wf(),
        final(view).filters == old(view).filters,
        final(view).visible == old(view).visible,
        final(view).cursor == old(view).cursor,
        final(view).snaps_dv().len() == old(view).snaps_dv().len(),
        forall|k: int|
            0 <= k < old(view).visible@.len() ==> final(view).snaps_dv()[old(
                view,
            ).visible@[k] as int] == spec_run(
                old(view).snaps_dv()[old(view).visible@[k] as int],
                #[trigger] results@[k]@,
            ),
        forall|i: int|
            0 <= i < old(view).snaps_dv().len() && !old(view).visible@.contains(i as usize)
                ==> final(view).snaps_dv()[i] == old(view).snaps_dv()[i],
        success == (forall|k: int|
            0 <= k < old(view).visible@.len() ==> spec_run_pass(
                old(view).snaps_dv()[old(view).visible@[k] as int],
                #[trigger] results@[k]@,
            )),
{
    let ghost old_dv = view.snaps_dv();
    let ghost vis = view.visible@;
    let mut success = true;
    let mut k: usize = 0;
    proof {
        assert(vis.subrange(0, 0) =~= Seq::<usize>::empty());
    }
    while k < view.visible.len()
        invariant
            view.wf(),
            results@.len() == vis.len(),
            vis == view.visible@,
            view.visible == old(view).visible,
            view.filters == old(view).filters,
            view.cursor == old(view).cursor,
            k <= vis.len(),
            view.snaps_dv().len() == old_dv.len(),
            old_dv == old(view).snaps_dv(),
            forall|j: int|
                0 <= j < k ==> view.snaps_dv()[vis[j] as int] == spec_run(
                    old_dv[vis[j] as int],
                    #[trigger] results@[j]@,
                ),
            forall|i: int|
                0 <= i < old_dv.len() && !vis.subrange(0, k as int).contains(i as usize)
                    ==> view.snaps_dv()[i] == old_dv[i],
            success == (forall|j: int|
                0 <= j < k ==> spec_run_pass(old_dv[vis[j] as int], #[trigger] results@[j]@)),
        decreases vis.len() - k,
    {
        let ghost pre_dv = view.snaps_dv();
        let idx = view.visible[k];
        proof {
            lemma_snapshot_views(view.snaps@);
            assert forall|j: int| 0 <= j < k implies vis[j] != vis[k as int] by {
                assert(vis[j] < vis[k as int]);
            }
            assert(!vis.subrange(0, k as int).contains(idx));
            assert(pre_dv[idx as int] == old_dv[idx as int]);
        }
        let ghost before = view.snaps@;
        let mut s = take_snap(&mut view.snaps, idx);
        let pass = run_snapshot(&mut s, &results[k]);
        view.snaps.insert(idx, s);
        proof {
            assert(view.snaps@ =~= before.update(idx as int, s));
            lemma_snapshot_views(view.snaps@);
            lemma_snapshot_views(before);
            assert forall|i: int| 0 <= i < old_dv.len() && i != idx implies view.snaps_dv()[i]
                == pre_dv[i] by {
                assert(view.snaps@[i] == before[i]);
            }
            assert(view.snaps_dv()[idx as int] == spec_run(old_dv[idx as int], results@[k as int]@));
            lemma_prefix_contains(vis, k as int);
            assert forall|i: int|
                0 <= i < old_dv.len() && !vis.subrange(0, k as int + 1).contains(
                    i as usize,
                ) implies view.snaps_dv()[i] == old_dv[i] by {
                assert(!vis.subrange(0, k as int).contains(i as usize));
                assert(i != idx);
            }
        }
        let new_success = success && pass;
        proof {
            assert(new_success == (forall|j: int|
                0 <= j < k + 1 ==> spec_run_pass(old_dv[vis[j] as int], #[trigger] results@[j]@)))
                by {
                if new_success {
                    assert forall|j: int| 0 <= j < k + 1 implies spec_run_pass(
                        old_dv[vis[j] as int],
                        #[trigger] results@[j]@,
                    ) by {
                        if j < k {
                        } else {
                            assert(pass);
                        }
                    }
                } else {
                    if !success {
                        let w = choose|j: int|
                            0 <= j < k && !spec_run_pass(
                                old_dv[vis[j] as int],
                                #[trigger] results@[j]@,
                            );
                        assert(!spec_run_pass(old_dv[vis[w] as int], results@[w]@));
                    } else {
                        assert(!spec_run_pass(old_dv[vis[k as int] as int], results@[k as int]@));
                    }
                }
            }
        }
        success = new_success;
        k = k + 1;
    }
    proof {
        assert(vis.subrange(0, vis.len() as int) =~= vis);
    }
    success
}

/// Updates every visible snapshot to its fresh result (one result per
/// visible entry, in view order), and counts how many actually changed.
/// Nothing else in the arena moves; presentation state stays put.
pub fn update_view(view: &mut SnapshotView, results: &Vec<ExecResult>) -> (count: usize)
    requires
        old(view).wf(),
        results@.len() == old(view).visible@.len(),
    ensures
        final(view).wf(),
        final(view).filters == old(view).filters,
        final(view).visible == old(view).visible,
        final(view).cursor == old(view).cursor,
        final(view).snaps_dv().len() == old(view).snaps_dv().len(),
        forall|k: int|
            0 <= k < old(view).visible@.len() ==> final(view).snaps_dv()[old(
                view,
            ).visible@[k] as int] == spec_update(
                old(view).snaps_dv()[old(view).visible@[k] as int],
                #[trigger] results@[k]@,
            ).0,
        forall|i: int|
            0 <= i < old(view).snaps_dv().len() && !old(view).visible@.contains(i as usize)
                ==> final(view).snaps_dv()[i] == old(view).snaps_dv()[i],
        count == spec_update_count(
            old(view).snaps_dv(),
            old(view).visible@,
            exec_models(results@),
            old(view).visible@.len() as int,
        ),
{
    let ghost old_dv = view.snaps_dv();
    let ghost vis = view.visible@;
    let ghost rsm = exec_models(results@);
    let mut count: usize = 0;
    let mut k: usize = 0;
    proof {
        assert(vis.subrange(0, 0) =~= Seq::<usize>::empty());
    }
    while k < view.visible.len()
        invariant
            view.wf(),
            results@.len() == vis.len(),
            rsm == exec_models(results@),
            vis == view.visible@,
            view.visible == old(view).visible,
            view.filters == old(view).filters,
            view.cursor == old(view).cursor,
            k <= vis.len(),
            view.snaps_dv().len() == old_dv.len(),
            old_dv == old(view).snaps_dv(),
            forall|j: int|
                0 <= j < k ==> view.snaps_dv()[vis[j] as int] == spec_update(
                    old_dv[vis[j] as int],
                    #[trigger] results@[j]@,
                ).0,
            forall|i: int|
                0 <= i < old_dv.len() && !vis.subrange(0, k as int).contains(i as usize)
                    ==> view.snaps_dv()[i] == old_dv[i],
            count <= k,
            count == spec_update_count(old_dv, vis, rsm, k as int),
        decreases vis.len() - k,
    {
        let ghost pre_dv = view.snaps_dv();
        let idx = view.visible[k];
        proof {
            lemma_snapshot_views(view.snaps@);
            assert forall|j: int| 0 <= j < k implies vis[j] != vis[k as int] by {
                assert(vis[j] < vis[k as int]);
            }
            assert(!vis.subrange(0, k as int).contains(idx));
            assert(pre_dv[idx as int] == old_dv[idx as int]);
        }
        let ghost before = view.snaps@;
        let mut s = take_snap(&mut view.snaps, idx);
        let changed = update_snapshot(&mut s, &results[k]);
        view.snaps.insert(idx, s);
        proof {
            assert(view.snaps@ =~= before.update(idx as int, s));
            lemma_snapshot_views(view.snaps@);
            lemma_snapshot_views(before);
            assert forall|i: int| 0 <= i < old_dv.len() && i != idx implies view.snaps_dv()[i]
                == pre_dv[i] by {
                assert(view.snaps@[i] == before[i]);
            }
            assert(view.snaps_dv()[idx as int] == spec_update(
                old_dv[idx as int],
                results@[k as int]@,
            ).0);
            lemma_prefix_contains(vis, k as int);
            assert forall|i: int|
                0 <= i < old_dv.len() && !vis.subrange(0, k as int + 1).contains(
                    i as usize,
                ) implies view.snaps_dv()[i] == old_dv[i] by {
                assert(!vis.subrange(0, k as int).contains(i as usize));
                assert(i != idx);
            }
            assert(rsm[k as int] == results@[k as int]@);
            assert(changed == spec_update(old_dv[vis[k as int] as int], rsm[k as int]).1);
        }
        if changed {
            count = count + 1;
        }
        k = k + 1;
    }
    proof {
        assert(vis.subrange(0, vis.len() as int) =~= vis);
    }
    count
}

/// Runs only the selected snapshot, if there is one: records its verdict and
/// reports whether it matched; with nothing selected, nothing happens.
pub fn run_selected(view: &mut SnapshotView, result: &ExecResult) -> (r: Option<bool>)
    requires
        old(view).wf(),
    ensures
        final(view).wf(),
        final(view).filters == old(view).filters,
        final(view).visible == old(view).visible,
        final(view).cursor == old(view).cursor,
        final(view).snaps_dv().len() == old(view).snaps_dv().len(),
        match old(view).spec_selected() {
            None => r is None && final(view).snaps == old(view).snaps,
            Some(a) => r == Some(spec_run_pass(old(view).snaps_dv()[a as int], result@)) && final(view).snaps_dv()
                == old(view).snaps_dv().update(
                a as int,
                spec_run(old(view).snaps_dv()[a as int], result@),
            ),
        },
{
    match view.selected_index() {
        None => None,
        Some(a) => {
            let ghost before = view.snaps@;
            let mut s = take_snap(&mut view.snaps, a);
            let pass = run_snapshot(&mut s, result);
            view.snaps.insert(a, s);
            proof {
                assert(view.snaps@ =~= before.update(a as int, s));
                lemma_snapshot_views(view.snaps@);
                lemma_snapshot_views(before);
                assert(view.snaps_dv() =~= old(view).snaps_dv().update(
                    a as int,
                    spec_run(old(view).snaps_dv()[a as int], result@),
                ));
            }
            Some(pass)
        },
    }
}

/// Updates only the selected snapshot, if there is one: accepts the fresh
/// result as its truth and reports whether anything changed; with nothing
/// selected, nothing happens.
pub fn update_selected(view: &mut SnapshotView, result: &ExecResult) -> (r: Option<bool>)
    requires
        old(view).wf(),
    ensures
        final(view).wf(),
        final(view).filters == old(view).filters,
        final(view).visible == old(view).visible,
        final(view).cursor == old(view).cursor,
        final(view).snaps_dv().len() == old(view).snaps_dv().len(),
        match old(view).spec_selected() {
            None => r is None && final(view).snaps == old(view).snaps,
            Some(a) => r == Some(spec_update(old(view).snaps_dv()[a as int], result@).1) && final(view).snaps_dv()
                == old(view).snaps_dv().update(
                a as int,
                spec_update(old(view).snaps_dv()[a as int], result@).0,
            ),
        },
{
    match view.selected_index() {
        None => None,
        Some(a) => {
            let ghost before = view.snaps@;
            let mut s = take_snap(&mut view.snaps, a);
            let changed = update_snapshot(&mut s, result);
            view.snaps.insert(a, s);
            proof {
                assert(view.snaps@ =~= before.update(a as int, s));
                lemma_snapshot_views(view.snaps@);
                lemma_snapshot_views(before);
                assert(view.snaps_dv() =~= old(view).snaps_dv().update(
                    a as int,
                    spec_update(old(view).snaps_dv()[a as int], result@).0,
                ));
            }
            Some(changed)
        },
    }
}

/// Updating is idempotent: a second update with the same execution result
/// reports that nothing changed any more.
pub proof fn lemma_update_idempotent(s: SnapshotModel, r: ExecModel)
    ensures
        spec_update(spec_update(s, r).0, r).1 == false,
        spec_update(spec_update(s, r).0, r).0 == spec_update(s, r).0,
{
}

/// Run after update always passes: once the fresh result has been accepted as
/// truth, running the same result against it reports a match and `Passed`.
pub proof fn lemma_update_then_run(s: SnapshotModel, r: ExecModel)
    ensures
        spec_run_pass(spec_update(s, r).0, r),
        spec_run(spec_update(s, r).0, r).status == SnapshotStatus::Passed,
{
    let u = spec_update(s, r).0;
    if r.stdout.len() == 0 {
        assert(r.stdout =~= Seq::<u8>::empty());
    }
    if r.stderr.len() == 0 {
        assert(r.stderr =~= Seq::<u8>::empty());
    }
    assert(r.stdout == stored_stream(u.stdout));
    assert(r.stderr == stored_stream(u.stderr));
}

} // verus!
