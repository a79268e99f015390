//! Choosing the snapshots to remove, walking from the oldest to the newest.
use vstd::prelude::*;

use crate::commands::list::{flat_indexes, opt_seq, row_tags, selected_by_tag, shares_tag, strictly_ascending};
use crate::meta::{metas_view, slice_contains, MetaView, RetentionTag, SnapshotMetaData};
use crate::text::{chars_of, trim, trim_chars};

verus! {

/// A snapshot chosen for removal.
#[derive(Debug, Clone, Copy, PartialEq, Eq, Structural)]
pub struct RemovalStep {
    /// Its position in the list (newest first).
    pub index: usize,
    pub timestamp: u64,
    /// Whether the `latest` link points at it.
    pub is_latest: bool,
    /// The newest snapshot older than it that is not chosen, to which `latest` moves when
    /// it is removed; `None` when there is none.
    pub preceding: Option<u64>,
}

/// The cursor over the reversed index list moved past every index above row `i`.
pub open spec fn skip_above(rindexes: Seq<usize>, k: int, i: int) -> int
    decreases rindexes.len() - k,
{
    if 0 <= k < rindexes.len() && rindexes[k] > i {
        skip_above(rindexes, k + 1, i)
    } else {
        k
    }
}

/// One row of the walk from the oldest snapshot: the cursor over the reversed index list
/// first passes the indexes above the row; the index then under it selects the row when
/// equal to it (and is passed); a row is also selected when its tags include a selected
/// tag. The cursor is consulted on every row.
pub open spec fn remove_step(
    tags: Seq<RetentionTag>,
    i: int,
    rindexes: Seq<usize>,
    k: int,
    select: Option<Seq<RetentionTag>>,
) -> (bool, int) {
    let k1 = skip_above(rindexes, k, i);
    if 0 <= k1 < rindexes.len() && rindexes[k1] == i {
        (true, k1 + 1)
    } else {
        (selected_by_tag(tags, select), k1)
    }
}

proof fn lemma_skip_above(rindexes: Seq<usize>, k: int, i: int)
    requires
        0 <= k <= rindexes.len(),
    ensures
        k <= skip_above(rindexes, k, i) <= rindexes.len(),
        forall|j: int| k <= j < skip_above(rindexes, k, i) ==> rindexes[j] > i,
        skip_above(rindexes, k, i) < rindexes.len() ==> rindexes[skip_above(rindexes, k, i)] <= i,
    decreases rindexes.len() - k,
{
    if k < rindexes.len() && rindexes[k] > i {
        lemma_skip_above(rindexes, k + 1, i);
    }
}

/// Moves the cursor over the reversed index list past every index above row `i`.
fn skip_indexes_above(indexes: &Vec<usize>, k: usize, i: usize) -> (r: usize)
    requires
        k <= indexes@.len(),
    ensures
        r == skip_above(indexes@.reverse(), k as int, i as int),
        k <= r <= indexes@.len(),
{
    let ghost rix = indexes@.reverse();
    let mut j = k;
    while j < indexes.len() && indexes[indexes.len() - 1 - j] > i
        invariant
            rix == indexes@.reverse(),
            k <= j <= indexes@.len(),
            skip_above(rix, k as int, i as int) == skip_above(rix, j as int, i as int),
        decreases indexes@.len() - j,
    {
        assert(indexes[indexes.len() - 1 - j] == rix[j as int]);
        j = j + 1;
    }
    proof {
        if j < indexes@.len() {
            assert(indexes@[indexes@.len() - 1 - j] == rix[j as int]);
        }
    }
    j
}

/// The state after walking the `m` oldest rows.
pub struct RemovalWalk {
    pub steps: Seq<RemovalStep>,
    pub cursor: int,
    pub preceding: Option<u64>,
    /// Whether each walked row is chosen, by row position.
    pub chosen: Map<int, bool>,
}

pub open spec fn removal_walk(
    snapshots: Seq<u64>,
    rows: Seq<Seq<RetentionTag>>,
    rindexes: Seq<usize>,
    select: Option<Seq<RetentionTag>>,
    latest: Option<u64>,
    m: nat,
) -> RemovalWalk
    decreases m,
{
    if m == 0 {
        RemovalWalk { steps: Seq::empty(), cursor: 0, preceding: None, chosen: Map::empty() }
    } else {
        let prev = removal_walk(snapshots, rows, rindexes, select, latest, (m - 1) as nat);
        let i = snapshots.len() - m;
        let (chosen, k) = remove_step(rows[i], i, rindexes, prev.cursor, select);
        if chosen {
            RemovalWalk {
                steps: prev.steps.push(
                    RemovalStep {
                        index: i as usize,
                        timestamp: snapshots[i],
                        is_latest: latest == Some(snapshots[i]),
                        preceding: prev.preceding,
                    },
                ),
                cursor: k,
                preceding: prev.preceding,
                chosen: prev.chosen.insert(i, true),
            }
        } else {
            RemovalWalk {
                steps: prev.steps,
                cursor: k,
                preceding: Some(snapshots[i]),
                chosen: prev.chosen.insert(i, false),
            }
        }
    }
}

/// The snapshots to remove, from the oldest to the newest: those whose tags include a
/// selected tag, and those picked by the index list walked in reverse.
pub fn plan_removal(
    snapshots: &[u64],
    metadata: &[SnapshotMetaData],
    select_indexes: Option<Vec<usize>>,
    select_tags: Option<Vec<RetentionTag>>,
    latest: Option<u64>,
) -> (r: Vec<RemovalStep>)
    requires
        metadata@.len() >= snapshots@.len(),
    ensures
        r@ == removal_walk(
            snapshots@,
            row_tags(metas_view(metadata@)),
            flat_indexes(select_indexes).reverse(),
            opt_seq(select_tags),
            latest,
            snapshots@.len(),
        ).steps,
        strictly_ascending(flat_indexes(select_indexes)) ==> forall|i: int|
            0 <= i < snapshots@.len() ==> (#[trigger] removes_row(r@, i) <==> (flat_indexes(select_indexes).contains(
                i as usize,
            ) || selected_by_tag(metas_view(metadata@)[i].1, opt_seq(select_tags)))),
{
    let ghost rows = row_tags(metas_view(metadata@));
    let ghost sel = opt_seq(select_tags);
    let indexes: Vec<usize> = match select_indexes {
        Some(v) => v,
        None => Vec::new(),
    };
    let ghost rix = indexes@.reverse();
    let n = snapshots.len();
    let mut out: Vec<RemovalStep> = Vec::new();
    let mut preceding: Option<u64> = None;
    let mut k: usize = 0;
    let mut m: usize = 0;
    while m < n
        invariant
            n == snapshots@.len(),
            metadata@.len() >= snapshots@.len(),
            rows == row_tags(metas_view(metadata@)),
            rix == indexes@.reverse(),
            sel == opt_seq(select_tags),
            0 <= m <= n,
            k <= indexes@.len(),
            ({
                let w = removal_walk(snapshots@, rows, rix, sel, latest, m as nat);
                &&& w.steps == out@
                &&& w.cursor == k
                &&& w.preceding == preceding
            }),
        decreases n - m,
    {
        let i = n - 1 - m;
        let snapshot = snapshots[i];
        let tags = metadata[i].tags();
        assert(tags@ == rows[i as int]);
        let mut is_selected = match &select_tags {
            None => false,
            Some(sel_v) => {
                let mut found = false;
                let mut t: usize = 0;
                while t < sel_v.len()
                    invariant
                        0 <= t <= sel_v@.len(),
                        found == (exists|j: int| 0 <= j < t && tags@.contains(#[trigger] sel_v@[j])),
                    decreases sel_v@.len() - t,
                {
                    if slice_contains(tags, sel_v[t]) {
                        found = true;
                    }
                    t = t + 1;
                }
                assert(found == shares_tag(tags@, sel_v@));
                found
            },
        };
        assert(is_selected == selected_by_tag(rows[i as int], sel));
        k = skip_indexes_above(&indexes, k, i);
        if k < indexes.len() {
            let idx_k = indexes[indexes.len() - 1 - k];
            assert(idx_k == rix[k as int]);
            if idx_k == i {
                k = k + 1;
                is_selected = true;
            }
        }
        if is_selected {
            let is_latest = match latest {
                Some(l) => l == snapshot,
                None => false,
            };
            out.push(RemovalStep { index: i, timestamp: snapshot, is_latest, preceding });
        } else {
            preceding = Some(snapshot);
        }
        m = m + 1;
    }
    proof {
        let idx = flat_indexes(select_indexes);
        assert(rix == idx.reverse());
        if strictly_ascending(idx) {
            lemma_walk(snapshots@, rows, rix, sel, latest, n as nat);
            let w = removal_walk(snapshots@, rows, rix, sel, latest, n as nat);
            assert forall|i: int| 0 <= i < snapshots@.len() implies (#[trigger] removes_row(out@, i) <==> (
            idx.contains(i as usize) || selected_by_tag(metas_view(metadata@)[i].1, sel))) by {
                lemma_removal_selects_listed_indexes(snapshots@, rows, idx, sel, latest, i);
                assert(rows[i] == metas_view(metadata@)[i].1);
                if removes_row(out@, i) {
                    let t = choose|t: int| 0 <= t < out@.len() && (#[trigger] out@[t]).index == i;
                    assert(w.steps[t] == out@[t]);
                }
            }
        }
    }
    out
}

/// The answer a reply to the removal prompt gives once trimmed and lowercased: `y`
/// confirms, `n` declines, anything else asks again.
pub open spec fn confirmation(input: Seq<char>) -> Option<bool> {
    let t = trim(input);
    if t.len() == 1 && (t[0] == 'y' || t[0] == 'Y') {
        Some(true)
    } else if t.len() == 1 && (t[0] == 'n' || t[0] == 'N') {
        Some(false)
    } else {
        None
    }
}

/// Reads a reply to the removal prompt.
pub fn read_confirmation(input: &str) -> (r: Option<bool>)
    ensures
        r == confirmation(input@),
{
    let t = trim_chars(&chars_of(input));
    if t.len() == 1 && (t[0] == 'y' || t[0] == 'Y') {
        Some(true)
    } else if t.len() == 1 && (t[0] == 'n' || t[0] == 'N') {
        Some(false)
    } else {
        None
    }
}

/// The entries from position `j` on whose position is not among `removed`, in order.
pub open spec fn kept_from(es: Seq<MetaView>, removed: Seq<usize>, j: int) -> Seq<MetaView>
    decreases es.len() - j,
{
    if j < 0 || j >= es.len() {
        Seq::empty()
    } else if removed.contains(j as usize) {
        kept_from(es, removed, j + 1)
    } else {
        seq![es[j]] + kept_from(es, removed, j + 1)
    }
}

/// The entries whose position is not among `removed`, in order.
pub open spec fn kept_entries(es: Seq<MetaView>, removed: Seq<usize>) -> Seq<MetaView> {
    kept_from(es, removed, 0)
}

fn has_position(removed: &[usize], p: usize) -> (r: bool)
    ensures
        r == removed@.contains(p),
{
    let mut i: usize = 0;
    while i < removed.len()
        invariant
            0 <= i <= removed@.len(),
            forall|j: int| 0 <= j < i ==> removed@[j] != p,
        decreases removed@.len() - i,
    {
        if removed[i] == p {
            assert(removed@[i as int] == p);
            return true;
        }
        i = i + 1;
    }
    false
}

/// The metadata once the entries at the removed positions are gone, and whether the
/// metadata file has to be written again (an entry went).
pub fn metadata_after_removal(metadata: Vec<SnapshotMetaData>, removed: &[usize]) -> (r: (
    Vec<SnapshotMetaData>,
    bool,
))
    ensures
        metas_view(r.0@) == kept_entries(metas_view(metadata@), removed@),
        r.1 == (r.0@.len() != metadata@.len()),
{
    let ghost es = metas_view(metadata@);
    let count = metadata.len();
    let mut v = metadata;
    let mut j: usize = count;
    assert(es.take(count as int) =~= es);
    assert(es.take(count as int) + kept_from(es, removed@, count as int) =~= es);
    while j > 0
        invariant
            es.len() == count,
            j <= count,
            metas_view(v@) == es.take(j as int) + kept_from(es, removed@, j as int),
        decreases j,
    {
        let p = j - 1;
        let ghost before = v@;
        proof {
            assert(es.take(j as int) =~= es.take(p as int).push(es[p as int]));
            assert(metas_view(before).len() == before.len());
        }
        if has_position(removed, p) {
            v.remove(p);
            assert(metas_view(v@) =~= metas_view(before).remove(p as int));
            assert(metas_view(v@) =~= es.take(p as int) + kept_from(es, removed@, p as int));
        } else {
            assert(metas_view(v@) =~= es.take(p as int) + kept_from(es, removed@, p as int));
        }
        j = p;
    }
    assert(es.take(0) =~= Seq::<MetaView>::empty());
    assert(metas_view(v@) =~= kept_from(es, removed@, 0));
    let rewrite = v.len() != count;
    (v, rewrite)
}

/// The first row from `j` on (up to `n`) that is not chosen, if any.
pub open spec fn nearest_unchosen(snapshots: Seq<u64>, chosen: Map<int, bool>, j: int, n: int) -> Option<u64>
    decreases n - j,
{
    if j >= n {
        None
    } else if !chosen[j] {
        Some(snapshots[j])
    } else {
        nearest_unchosen(snapshots, chosen, j + 1, n)
    }
}

proof fn lemma_nearest_frame(snapshots: Seq<u64>, chosen: Map<int, bool>, i: int, b: bool, j: int, n: int)
    requires
        i < j,
    ensures
        nearest_unchosen(snapshots, chosen.insert(i, b), j, n) == nearest_unchosen(snapshots, chosen, j, n),
    decreases n - j,
{
    if j < n {
        lemma_nearest_frame(snapshots, chosen, i, b, j + 1, n);
    }
}

/// Whether the plan has a step for row `i`.
pub open spec fn removes_row(steps: Seq<RemovalStep>, i: int) -> bool {
    exists|t: int| 0 <= t < steps.len() && (#[trigger] steps[t]).index == i
}

proof fn lemma_walk(
    snapshots: Seq<u64>,
    rows: Seq<Seq<RetentionTag>>,
    rindexes: Seq<usize>,
    select: Option<Seq<RetentionTag>>,
    latest: Option<u64>,
    m: nat,
)
    requires
        m <= snapshots.len(),
        snapshots.len() <= usize::MAX,
    ensures
        ({
            let w = removal_walk(snapshots, rows, rindexes, select, latest, m);
            let n = snapshots.len() as int;
            &&& w.preceding == nearest_unchosen(snapshots, w.chosen, n - m, n)
            &&& forall|t: int| #![trigger w.steps[t]] 0 <= t < w.steps.len() ==> {
                &&& n - m <= w.steps[t].index < n
                &&& w.chosen[w.steps[t].index as int]
                &&& w.steps[t].timestamp == snapshots[w.steps[t].index as int]
                &&& w.steps[t].is_latest == (latest == Some(snapshots[w.steps[t].index as int]))
                &&& w.steps[t].preceding == nearest_unchosen(snapshots, w.chosen, w.steps[t].index + 1, n)
            }
            &&& forall|i: int| n - m <= i < n && #[trigger] w.chosen[i] ==> removes_row(w.steps, i)
        }),
    decreases m,
{
    let n = snapshots.len() as int;
    if m > 0 {
        lemma_walk(snapshots, rows, rindexes, select, latest, (m - 1) as nat);
        let prev = removal_walk(snapshots, rows, rindexes, select, latest, (m - 1) as nat);
        let w = removal_walk(snapshots, rows, rindexes, select, latest, m);
        let i = n - m;
        let (c, k) = remove_step(rows[i], i, rindexes, prev.cursor, select);
        assert(w.chosen == prev.chosen.insert(i, c));
        lemma_nearest_frame(snapshots, prev.chosen, i, c, i + 1, n);
        assert forall|t: int| #![trigger w.steps[t]] 0 <= t < w.steps.len() implies {
            &&& n - m <= w.steps[t].index < n
            &&& w.chosen[w.steps[t].index as int]
            &&& w.steps[t].timestamp == snapshots[w.steps[t].index as int]
            &&& w.steps[t].is_latest == (latest == Some(snapshots[w.steps[t].index as int]))
            &&& w.steps[t].preceding == nearest_unchosen(snapshots, w.chosen, w.steps[t].index + 1, n)
        } by {
            if t < prev.steps.len() {
                assert(w.steps[t] == prev.steps[t]);
                let j = prev.steps[t].index as int;
                lemma_nearest_frame(snapshots, prev.chosen, i, c, j + 1, n);
            } else {
                assert(c);
                assert(w.steps[t].index == i);
            }
        }
        assert forall|x: int| n - m <= x < n && #[trigger] w.chosen[x] implies removes_row(w.steps, x) by {
            if x == i {
                assert(w.steps[prev.steps.len() as int] == w.steps[prev.steps.len() as int]);
                assert(w.steps[prev.steps.len() as int].index == i);
            } else {
                assert(w.chosen[x] == prev.chosen[x]);
                let t = choose|t: int| 0 <= t < prev.steps.len() && (#[trigger] prev.steps[t]).index == x;
                assert(w.steps[t] == prev.steps[t]);
            }
        }
    }
}

proof fn lemma_removal_cursor(
    snapshots: Seq<u64>,
    rows: Seq<Seq<RetentionTag>>,
    indexes: Seq<usize>,
    select: Option<Seq<RetentionTag>>,
    latest: Option<u64>,
    m: nat,
)
    requires
        strictly_ascending(indexes),
        m <= snapshots.len(),
        snapshots.len() <= usize::MAX,
    ensures
        ({
            let w = removal_walk(snapshots, rows, indexes.reverse(), select, latest, m);
            let r = indexes.reverse();
            let low = snapshots.len() - m;
            &&& 0 <= w.cursor <= r.len()
            &&& forall|j: int| 0 <= j < w.cursor ==> r[j] >= low
            &&& forall|i: int| low <= i < snapshots.len() ==> (w.chosen[i] <==> (indexes.contains(i as usize)
                || selected_by_tag(rows[i], select)))
        }),
    decreases m,
{
    let r = indexes.reverse();
    let n = snapshots.len() as int;
    assert forall|a: int, b: int| 0 <= a < b < r.len() implies r[a] > r[b] by {
        assert(r[a] == indexes[indexes.len() - 1 - a]);
        assert(r[b] == indexes[indexes.len() - 1 - b]);
    }
    if m > 0 {
        lemma_removal_cursor(snapshots, rows, indexes, select, latest, (m - 1) as nat);
        let prev = removal_walk(snapshots, rows, r, select, latest, (m - 1) as nat);
        let w = removal_walk(snapshots, rows, r, select, latest, m);
        let i = n - m;
        let k = prev.cursor;
        let k1 = skip_above(r, k, i);
        lemma_skip_above(r, k, i);
        assert(w.chosen == prev.chosen.insert(i, remove_step(rows[i], i, r, k, select).0));
        assert(indexes.contains(i as usize) <==> r.contains(i as usize)) by {
            if indexes.contains(i as usize) {
                let j = choose|j: int| 0 <= j < indexes.len() && indexes[j] == i as usize;
                assert(r[indexes.len() - 1 - j] == i as usize);
            }
            if r.contains(i as usize) {
                let j = choose|j: int| 0 <= j < r.len() && r[j] == i as usize;
                assert(indexes[indexes.len() - 1 - j] == i as usize);
            }
        }
        assert(w.chosen[i] <==> (r.contains(i as usize) || selected_by_tag(rows[i], select))) by {
            if r.contains(i as usize) && !(k1 < r.len() && r[k1] == i) {
                let j = choose|j: int| 0 <= j < r.len() && r[j] == i as usize;
                if j < k {
                    assert(r[j] >= i + 1);
                } else if j < k1 {
                    assert(r[j] > i);
                } else if j > k1 {
                    assert(r[k1] > r[j]);
                }
            }
        }
        assert forall|x: int| i <= x < n implies (w.chosen[x] <==> (indexes.contains(x as usize)
            || selected_by_tag(rows[x], select))) by {
            if x > i {
                assert(w.chosen[x] == prev.chosen[x]);
            }
        }
        assert forall|j: int| 0 <= j < w.cursor implies r[j] >= i by {
            if j < k {
                assert(r[j] >= i + 1);
            } else if j < k1 {
                assert(r[j] > i);
            }
        }
    }
}

/// With strictly increasing indexes, removal chooses exactly the rows whose index is
/// listed and the rows whose tags include a selected tag.
pub proof fn lemma_removal_selects_listed_indexes(
    snapshots: Seq<u64>,
    rows: Seq<Seq<RetentionTag>>,
    indexes: Seq<usize>,
    select: Option<Seq<RetentionTag>>,
    latest: Option<u64>,
    i: int,
)
    requires
        strictly_ascending(indexes),
        0 <= i < snapshots.len(),
        snapshots.len() <= usize::MAX,
    ensures
        removal_walk(snapshots, rows, indexes.reverse(), select, latest, snapshots.len()).chosen[i]
            <==> (indexes.contains(i as usize) || selected_by_tag(rows[i], select)),
{
    lemma_removal_cursor(snapshots, rows, indexes, select, latest, snapshots.len());
}

/// When a snapshot chosen for removal is the one `latest` points at, the link moves to the
/// newest older snapshot that is not chosen (or is removed when there is none).
pub proof fn lemma_removal_preceding(
    snapshots: Seq<u64>,
    rows: Seq<Seq<RetentionTag>>,
    rindexes: Seq<usize>,
    select: Option<Seq<RetentionTag>>,
    latest: Option<u64>,
    t: int,
)
    requires
        snapshots.len() <= usize::MAX,
        0 <= t < removal_walk(snapshots, rows, rindexes, select, latest, snapshots.len()).steps.len(),
    ensures
        ({
            let w = removal_walk(snapshots, rows, rindexes, select, latest, snapshots.len());
            let s = w.steps[t];
            &&& 0 <= s.index < snapshots.len()
            &&& w.chosen[s.index as int]
            &&& s.timestamp == snapshots[s.index as int]
            &&& s.preceding == nearest_unchosen(snapshots, w.chosen, s.index + 1, snapshots.len() as int)
        }),
{
    lemma_walk(snapshots, rows, rindexes, select, latest, snapshots.len());
    let w = removal_walk(snapshots, rows, rindexes, select, latest, snapshots.len());
    assert(w.steps[t] == w.steps[t]);
}

} // verus!
