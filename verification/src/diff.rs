//! Line-oriented comparison of two byte blobs: split on line feeds (binary
//! safe, a carriage return is ordinary content), then produce an annotated
//! edit script of unchanged, added and removed lines, guided by a classic
//! longest-common-subsequence table.

use vstd::prelude::*;
use vstd::slice::slice_to_vec;

use crate::engine::bytes_eq;

verus! {

/// One annotated line of an edit script.
#[derive(Clone, Debug, PartialEq)]
pub enum DiffLine {
    Unchanged(Vec<u8>),
    Added(Vec<u8>),
    Removed(Vec<u8>),
}

/// Mathematical model of a `DiffLine`.
pub ghost enum DiffLineModel {
    Unchanged(Seq<u8>),
    Added(Seq<u8>),
    Removed(Seq<u8>),
}

impl View for DiffLine {
    type V = DiffLineModel;

    open spec fn view(&self) -> DiffLineModel {
        match self {
            DiffLine::Unchanged(t) => DiffLineModel::Unchanged(t@),
            DiffLine::Added(t) => DiffLineModel::Added(t@),
            DiffLine::Removed(t) => DiffLineModel::Removed(t@),
        }
    }
}

impl DeepView for DiffLine {
    type V = DiffLineModel;

    open spec fn deep_view(&self) -> DiffLineModel {
        self.view()
    }
}

/// The line carried by an annotated diff entry.
pub open spec fn diff_text(d: DiffLineModel) -> Seq<u8> {
    match d {
        DiffLineModel::Unchanged(t) => t,
        DiffLineModel::Added(t) => t,
        DiffLineModel::Removed(t) => t,
    }
}

/// The lines of a blob: split on every line feed, so a blob with k line feeds
/// has exactly k + 1 lines and the line feeds themselves are not kept.
pub open spec fn spec_lines(b: Seq<u8>) -> Seq<Seq<u8>>
    decreases b.len(),
{
    if b.len() == 0 {
        seq![Seq::<u8>::empty()]
    } else if b[0] == 10u8 {
        seq![Seq::<u8>::empty()] + spec_lines(b.drop_first())
    } else {
        let rest = spec_lines(b.drop_first());
        seq![seq![b[0]] + rest[0]] + rest.drop_first()
    }
}

/// Joins lines back with a line feed between each pair: the inverse of
/// `spec_lines`.
pub open spec fn spec_unlines(ls: Seq<Seq<u8>>) -> Seq<u8>
    decreases ls.len(),
{
    if ls.len() == 0 {
        Seq::<u8>::empty()
    } else if ls.len() == 1 {
        ls[0]
    } else {
        ls[0] + seq![10u8] + spec_unlines(ls.drop_first())
    }
}

/// Splitting always yields at least one line.
pub proof fn lemma_lines_nonempty(b: Seq<u8>)
    ensures
        spec_lines(b).len() >= 1,
    decreases b.len(),
{
    if b.len() != 0 {
        lemma_lines_nonempty(b.drop_first());
    }
}

/// Joining the lines of a blob gives the blob back, byte for byte.
pub proof fn lemma_unlines_lines(b: Seq<u8>)
    ensures
        spec_unlines(spec_lines(b)) == b,
    decreases b.len(),
{
    if b.len() == 0 {
        assert(spec_unlines(spec_lines(b)) =~= b);
    } else if b[0] == 10u8 {
        lemma_unlines_lines(b.drop_first());
        lemma_lines_nonempty(b.drop_first());
        let ls = seq![Seq::<u8>::empty()] + spec_lines(b.drop_first());
        assert(ls.drop_first() =~= spec_lines(b.drop_first()));
        assert(ls.len() >= 2);
        assert(ls[0] =~= Seq::<u8>::empty());
        assert(spec_lines(b) == ls);
        assert(spec_unlines(ls) == ls[0] + seq![10u8] + spec_unlines(ls.drop_first()));
        assert(spec_unlines(ls.drop_first()) == b.drop_first());
        assert(ls[0] + seq![10u8] + b.drop_first() =~= b);
        assert(spec_unlines(ls) == b);
    } else {
        lemma_unlines_lines(b.drop_first());
        lemma_lines_nonempty(b.drop_first());
        let rest = spec_lines(b.drop_first());
        let ls = seq![seq![b[0]] + rest[0]] + rest.drop_first();
        assert(spec_lines(b) == ls);
        if rest.len() == 1 {
            assert(ls.len() == 1);
            assert(spec_unlines(ls) == ls[0]);
            assert(ls[0] == seq![b[0]] + rest[0]);
            assert(spec_unlines(rest) == rest[0]);
            assert(rest[0] == b.drop_first());
            assert(seq![b[0]] + b.drop_first() =~= b);
            assert(spec_unlines(ls) == b);
        } else {
            assert(ls.len() >= 2);
            assert(ls.drop_first() =~= rest.drop_first());
            assert(ls[0] == seq![b[0]] + rest[0]);
            assert(spec_unlines(ls) == ls[0] + seq![10u8] + spec_unlines(ls.drop_first()));
            assert(spec_unlines(rest) == rest[0] + seq![10u8] + spec_unlines(rest.drop_first()));
            assert(rest[0] + seq![10u8] + spec_unlines(rest.drop_first()) == b.drop_first());
            assert((seq![b[0]] + rest[0]) + seq![10u8] + spec_unlines(rest.drop_first()) =~= seq![
                b[0],
            ] + (rest[0] + seq![10u8] + spec_unlines(rest.drop_first())));
            assert(seq![b[0]] + b.drop_first() =~= b);
            assert(spec_unlines(ls) == b);
        }
    }
}

/// The left-hand projection of an edit script: the unchanged and removed
/// lines, in order. For a correct diff this is exactly the old blob's lines.
pub open spec fn old_lines(d: Seq<DiffLineModel>) -> Seq<Seq<u8>>
    decreases d.len(),
{
    if d.len() == 0 {
        Seq::<Seq<u8>>::empty()
    } else {
        old_lines(d.drop_last()) + (match d.last() {
            DiffLineModel::Unchanged(t) => seq![t],
            DiffLineModel::Removed(t) => seq![t],
            DiffLineModel::Added(_) => Seq::<Seq<u8>>::empty(),
        })
    }
}

/// The right-hand projection of an edit script: the unchanged and added
/// lines, in order. For a correct diff this is exactly the new blob's lines.
pub open spec fn new_lines(d: Seq<DiffLineModel>) -> Seq<Seq<u8>>
    decreases d.len(),
{
    if d.len() == 0 {
        Seq::<Seq<u8>>::empty()
    } else {
        new_lines(d.drop_last()) + (match d.last() {
            DiffLineModel::Unchanged(t) => seq![t],
            DiffLineModel::Added(t) => seq![t],
            DiffLineModel::Removed(_) => Seq::<Seq<u8>>::empty(),
        })
    }
}

/// Splits a blob into its lines, exactly as `spec_lines` says.
pub fn split_lines(b: &Vec<u8>) -> (out: Vec<Vec<u8>>)
    ensures
        out.deep_view() == spec_lines(b@),
{
    let ghost whole = spec_lines(b@);
    let mut out: Vec<Vec<u8>> = Vec::new();
    let mut cur: Vec<u8> = Vec::new();
    let mut i: usize = 0;
    proof {
        lemma_lines_nonempty(b@);
        assert(b@.skip(0) =~= b@);
        assert(cur@ + whole[0] =~= whole[0]);
        assert(out.deep_view() =~= Seq::<Seq<u8>>::empty());
        assert(whole =~= seq![whole[0]] + whole.drop_first());
        assert(whole =~= out.deep_view() + seq![cur@ + spec_lines(b@.skip(0))[0]] + spec_lines(
            b@.skip(0),
        ).drop_first());
    }
    while i < b.len()
        invariant
            i <= b@.len(),
            whole == spec_lines(b@),
            spec_lines(b@.skip(i as int)).len() >= 1,
            whole == out.deep_view() + seq![cur@ + spec_lines(b@.skip(i as int))[0]] + spec_lines(
                b@.skip(i as int),
            ).drop_first(),
        decreases b@.len() - i,
    {
        let ghost pre = b@.skip(i as int);
        proof {
            assert(pre.len() > 0);
            assert(pre[0] == b@[i as int]);
            assert(pre.drop_first() =~= b@.skip(i as int + 1));
            lemma_lines_nonempty(b@.skip(i as int + 1));
        }
        let c = b[i];
        if c == 10u8 {
            let done = cur;
            let ghost done_v = done@;
            let ghost out0 = out.deep_view();
            cur = Vec::new();
            proof {
                let rest = spec_lines(b@.skip(i as int + 1));
                assert(spec_lines(pre) == seq![Seq::<u8>::empty()] + rest);
                assert(spec_lines(pre)[0] =~= Seq::<u8>::empty());
                assert(done_v + spec_lines(pre)[0] =~= done_v);
                assert(spec_lines(pre).drop_first() =~= rest);
                assert(whole =~= out0 + seq![done_v] + rest);
            }
            out.push(done);
            proof {
                let rest = spec_lines(b@.skip(i as int + 1));
                assert forall|k: int| 0 <= k < out.deep_view().len() implies out.deep_view()[k]
                    == (out0 + seq![done_v])[k] by {
                    if k == out0.len() {
                        assert(out@[k]@ == done_v);
                        assert(out@[k].deep_view() =~= out@[k]@);
                    }
                }
                assert(out.deep_view() =~= out0 + seq![done_v]);
                assert(cur@ + rest[0] =~= rest[0]);
                assert(rest =~= seq![rest[0]] + rest.drop_first());
                assert(whole =~= out.deep_view() + seq![cur@ + rest[0]] + rest.drop_first());
            }
        } else {
            let ghost old_cur = cur@;
            cur.push(c);
            proof {
                let rest = spec_lines(b@.skip(i as int + 1));
                assert(spec_lines(pre) == seq![seq![pre[0]] + rest[0]] + rest.drop_first());
                assert(old_cur + spec_lines(pre)[0] =~= cur@ + rest[0]);
                assert(spec_lines(pre).drop_first() =~= rest.drop_first());
                assert(whole =~= out.deep_view() + seq![cur@ + rest[0]] + rest.drop_first());
            }
        }
        i = i + 1;
    }
    let ghost cur_v = cur@;
    let ghost out0 = out.deep_view();
    proof {
        assert(b@.skip(i as int) =~= Seq::<u8>::empty());
        assert(spec_lines(b@.skip(i as int)) == seq![Seq::<u8>::empty()]);
        assert(spec_lines(b@.skip(i as int))[0] =~= Seq::<u8>::empty());
        assert(spec_lines(b@.skip(i as int)).drop_first() =~= Seq::<Seq<u8>>::empty());
        assert(cur_v + spec_lines(b@.skip(i as int))[0] =~= cur_v);
        assert(whole =~= out0 + seq![cur_v]);
    }
    out.push(cur);
    proof {
        assert forall|k: int| 0 <= k < out.deep_view().len() implies out.deep_view()[k] == (out0
            + seq![cur_v])[k] by {
            if k == out0.len() {
                assert(out@[k]@ == cur_v);
                assert(out@[k].deep_view() =~= out@[k]@);
            }
        }
        assert(out.deep_view() =~= out0 + seq![cur_v]);
        assert(out.deep_view() =~= whole);
    }
    out
}

/// Copies one line.
fn copy_line(v: &Vec<u8>) -> (r: Vec<u8>)
    ensures
        r@ == v@,
{
    slice_to_vec(v.as_slice())
}

/// Computes the suffix longest-common-subsequence table of the two line
/// sequences: row k (counted from the bottom) holds the values for the
/// old-line suffix starting at `n - k`, and within a row, position p holds
/// the value for the new-line suffix starting at column `m - p` (mirrored).
/// Values only pick directions while walking the edit script; the walk's
/// contract does not depend on them.
fn lcs_rows(la: &Vec<Vec<u8>>, lb: &Vec<Vec<u8>>) -> (rows: Vec<Vec<usize>>)
    ensures
        rows@.len() == la@.len() + 1,
        forall|k: int| 0 <= k < rows@.len() ==> #[trigger] rows@[k]@.len() == lb@.len() + 1,
{
    let n = la.len();
    let m = lb.len();
    let mut rows: Vec<Vec<usize>> = Vec::new();
    let mut bottom: Vec<usize> = Vec::new();
    bottom.push(0);
    let mut c: usize = 0;
    while c < m
        invariant
            c <= m,
            bottom@.len() == c + 1,
            forall|p: int| 0 <= p < bottom@.len() ==> #[trigger] bottom@[p] == 0,
        decreases m - c,
    {
        bottom.push(0);
        c = c + 1;
    }
    rows.push(bottom);
    let mut done: usize = 0;
    while done < n
        invariant
            done <= n,
            n == la@.len(),
            m == lb@.len(),
            rows@.len() == done + 1,
            forall|r: int| 0 <= r < rows@.len() ==> #[trigger] rows@[r]@.len() == m + 1,
            forall|r: int, p: int|
                0 <= r < rows@.len() && 0 <= p < rows@[r]@.len() ==> #[trigger] rows@[r]@[p] <= r,
        decreases n - done,
    {
        let k = done + 1;
        let i = n - k;
        let mut row: Vec<usize> = Vec::new();
        row.push(0);
        let mut c2: usize = 0;
        while c2 < m
            invariant
                c2 <= m,
                1 <= k <= n,
                i == n - k,
                n == la@.len(),
                m == lb@.len(),
                rows@.len() == k,
                forall|r: int| 0 <= r < rows@.len() ==> #[trigger] rows@[r]@.len() == m + 1,
                forall|r: int, p: int|
                    0 <= r < rows@.len() && 0 <= p < rows@[r]@.len() ==> #[trigger] rows@[r]@[p]
                        <= r,
                row@.len() == c2 + 1,
                forall|p: int| 0 <= p < row@.len() ==> #[trigger] row@[p] <= k,
            decreases m - c2,
        {
            let p = c2 + 1;
            let j = m - p;
            let v: usize = if bytes_eq(&la[i], &lb[j]) {
                1 + rows[k - 1][p - 1]
            } else {
                let down = rows[k - 1][p];
                let right = row[c2];
                if down >= right {
                    down
                } else {
                    right
                }
            };
            row.push(v);
            c2 = c2 + 1;
        }
        rows.push(row);
        done = k;
    }
    rows
}

/// Line diff of two blobs. The edit script's left-hand projection is exactly
/// the old blob's lines and its right-hand projection exactly the new blob's
/// lines; equal blobs yield an entirely unchanged script.
pub fn diff(a: &Vec<u8>, b: &Vec<u8>) -> (d: Vec<DiffLine>)
    ensures
        old_lines(d.deep_view()) == spec_lines(a@),
        new_lines(d.deep_view()) == spec_lines(b@),
        a@ == b@ ==> forall|k: int|
            0 <= k < d.deep_view().len() ==> #[trigger] d.deep_view()[k] is Unchanged,
{
    let la = split_lines(a);
    let lb = split_lines(b);
    let n = la.len();
    let m = lb.len();
    let rows = lcs_rows(&la, &lb);
    let mut out: Vec<DiffLine> = Vec::new();
    let mut i: usize = 0;
    let mut j: usize = 0;
    proof {
        assert(old_lines(out.deep_view()) =~= la.deep_view().subrange(0, 0));
        assert(new_lines(out.deep_view()) =~= lb.deep_view().subrange(0, 0));
    }
    while i < n || j < m
        invariant
            i <= n,
            j <= m,
            n == la@.len(),
            m == lb@.len(),
            la.deep_view() == spec_lines(a@),
            lb.deep_view() == spec_lines(b@),
            rows@.len() == n + 1,
            forall|k: int| 0 <= k < rows@.len() ==> #[trigger] rows@[k]@.len() == m + 1,
            old_lines(out.deep_view()) == la.deep_view().subrange(0, i as int),
            new_lines(out.deep_view()) == lb.deep_view().subrange(0, j as int),
            a@ == b@ ==> i == j && (forall|k: int|
                0 <= k < out.deep_view().len() ==> #[trigger] out.deep_view()[k] is Unchanged),
        decreases (n - i) + (m - j),
    {
        let ghost out0 = out.deep_view();
        proof {
            if i < n {
                assert(la@[i as int].deep_view() =~= la@[i as int]@);
                assert(la.deep_view()[i as int] == la@[i as int].deep_view());
            }
            if j < m {
                assert(lb@[j as int].deep_view() =~= lb@[j as int]@);
                assert(lb.deep_view()[j as int] == lb@[j as int].deep_view());
            }
        }
        let take_both = i < n && j < m && bytes_eq(&la[i], &lb[j]);
        proof {
            if a@ == b@ {
                assert(la.deep_view().len() == lb.deep_view().len());
                if i < n && j < m {
                    assert(la.deep_view()[i as int] == lb.deep_view()[j as int]);
                    assert(take_both);
                }
            }
        }
        if take_both {
            out.push(DiffLine::Unchanged(copy_line(&la[i])));
            proof {
                assert(out.deep_view().drop_last() =~= out0);
                assert(out.deep_view().last() == DiffLineModel::Unchanged(
                    la.deep_view()[i as int],
                ));
                assert(old_lines(out.deep_view()) =~= la.deep_view().subrange(0, i as int + 1));
                assert(new_lines(out.deep_view()) =~= lb.deep_view().subrange(0, j as int + 1));
                if a@ == b@ {
                    assert forall|k: int|
                        0 <= k < out.deep_view().len() implies #[trigger] out.deep_view()[k]
                        is Unchanged by {
                        if k < out0.len() {
                            assert(out.deep_view()[k] == out0[k]);
                        }
                    }
                }
            }
            i = i + 1;
            j = j + 1;
        } else if i < n && (j == m || rows[n - i - 1][m - j] >= rows[n - i][m - j - 1]) {
            out.push(DiffLine::Removed(copy_line(&la[i])));
            proof {
                assert(out.deep_view().drop_last() =~= out0);
                assert(out.deep_view().last() == DiffLineModel::Removed(
                    la.deep_view()[i as int],
                ));
                assert(old_lines(out.deep_view()) =~= la.deep_view().subrange(0, i as int + 1));
                assert(new_lines(out.deep_view()) =~= lb.deep_view().subrange(0, j as int));
            }
            i = i + 1;
        } else {
            proof {
                assert(j < m);
            }
            out.push(DiffLine::Added(copy_line(&lb[j])));
            proof {
                assert(out.deep_view().drop_last() =~= out0);
                assert(out.deep_view().last() == DiffLineModel::Added(lb.deep_view()[j as int]));
                assert(new_lines(out.deep_view()) =~= lb.deep_view().subrange(0, j as int + 1));
                assert(old_lines(out.deep_view()) =~= la.deep_view().subrange(0, i as int));
            }
            j = j + 1;
        }
    }
    proof {
        assert(la.deep_view().subrange(0, i as int) =~= la.deep_view());
        assert(lb.deep_view().subrange(0, j as int) =~= lb.deep_view());
    }
    out
}

/// Concatenating an all-unchanged edit script reconstructs the blob it was
/// produced from: diffing a blob against itself round-trips exactly.
pub proof fn lemma_diff_round_trip(d: Seq<DiffLineModel>, a: Seq<u8>)
    requires
        old_lines(d) == spec_lines(a),
        forall|k: int| 0 <= k < d.len() ==> #[trigger] d[k] is Unchanged,
    ensures
        spec_unlines(Seq::new(d.len(), |k: int| diff_text(d[k]))) == a,
{
    lemma_all_unchanged_old_lines(d);
    lemma_unlines_lines(a);
}

/// On an all-unchanged script the left-hand projection is just the carried
/// lines themselves.
proof fn lemma_all_unchanged_old_lines(d: Seq<DiffLineModel>)
    requires
        forall|k: int| 0 <= k < d.len() ==> #[trigger] d[k] is Unchanged,
    ensures
        old_lines(d) == Seq::new(d.len(), |k: int| diff_text(d[k])),
    decreases d.len(),
{
    if d.len() == 0 {
        assert(old_lines(d) =~= Seq::new(d.len(), |k: int| diff_text(d[k])));
    } else {
        lemma_all_unchanged_old_lines(d.drop_last());
        assert(old_lines(d) =~= Seq::new(d.len(), |k: int| diff_text(d[k])));
    }
}

} // verus!
