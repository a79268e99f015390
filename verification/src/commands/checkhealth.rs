//! Reconciling the metadata file with the snapshot directories.
use vstd::prelude::*;

use crate::text::{chars_of, decimal_digits, push_all, push_decimal, string_from_chars};

verus! {

/// What the reconciliation finds for a timestamp.
#[derive(Debug, Clone, Copy, PartialEq, Eq, Structural)]
pub enum HealthReport {
    /// Both the metadata and a snapshot directory have it.
    Matched(u64),
    /// A snapshot directory has no metadata entry.
    MetadataIncomplete(u64),
    /// A metadata entry has no snapshot directory.
    MissingSnapshot(u64),
}

/// Walks both lists (each ordered newest first) from the front: equal timestamps match;
/// otherwise the larger one is reported alone and passed.
pub open spec fn reconcile(metadata: Seq<u64>, snapshots: Seq<u64>) -> Seq<HealthReport>
    decreases metadata.len() + snapshots.len(),
{
    if metadata.len() > 0 && snapshots.len() > 0 {
        let a = metadata[0];
        let b = snapshots[0];
        if a == b {
            seq![HealthReport::Matched(a)] + reconcile(metadata.drop_first(), snapshots.drop_first())
        } else if a < b {
            seq![HealthReport::MetadataIncomplete(b)] + reconcile(metadata, snapshots.drop_first())
        } else {
            seq![HealthReport::MissingSnapshot(a)] + reconcile(metadata.drop_first(), snapshots)
        }
    } else if metadata.len() > 0 {
        seq![HealthReport::MissingSnapshot(metadata[0])] + reconcile(metadata.drop_first(), snapshots)
    } else if snapshots.len() > 0 {
        seq![HealthReport::MetadataIncomplete(snapshots[0])] + reconcile(metadata, snapshots.drop_first())
    } else {
        Seq::empty()
    }
}

/// The reports for the metadata timestamps and the snapshot timestamps.
pub fn reconcile_snapshots(metadata: &[u64], snapshots: &[u64]) -> (r: Vec<HealthReport>)
    ensures
        r@ == reconcile(metadata@, snapshots@),
{
    let mut out: Vec<HealthReport> = Vec::new();
    let mut i: usize = 0;
    let mut j: usize = 0;
    assert(metadata@.skip(0) =~= metadata@);
    assert(snapshots@.skip(0) =~= snapshots@);
    while i < metadata.len() || j < snapshots.len()
        invariant
            0 <= i <= metadata@.len(),
            0 <= j <= snapshots@.len(),
            out@ + reconcile(metadata@.skip(i as int), snapshots@.skip(j as int)) == reconcile(metadata@, snapshots@),
        decreases metadata@.len() + snapshots@.len() - i - j,
    {
        let ghost m = metadata@.skip(i as int);
        let ghost s = snapshots@.skip(j as int);
        if i < metadata.len() {
            assert(m.drop_first() =~= metadata@.skip(i + 1));
        }
        if j < snapshots.len() {
            assert(s.drop_first() =~= snapshots@.skip(j + 1));
        }
        let report = if i < metadata.len() && j < snapshots.len() {
            let a = metadata[i];
            let b = snapshots[j];
            assert(m[0] == a && s[0] == b);
            if a == b {
                i = i + 1;
                j = j + 1;
                HealthReport::Matched(a)
            } else if a < b {
                j = j + 1;
                HealthReport::MetadataIncomplete(b)
            } else {
                i = i + 1;
                HealthReport::MissingSnapshot(a)
            }
        } else if i < metadata.len() {
            assert(m[0] == metadata@[i as int]);
            let a = metadata[i];
            i = i + 1;
            HealthReport::MissingSnapshot(a)
        } else {
            assert(s[0] == snapshots@[j as int]);
            let b = snapshots[j];
            j = j + 1;
            HealthReport::MetadataIncomplete(b)
        };
        let ghost before = out@;
        out.push(report);
        assert(out@ =~= before + seq![report]);
        assert(before + reconcile(m, s) == before + (seq![report] + reconcile(
            metadata@.skip(i as int),
            snapshots@.skip(j as int),
        )));
        assert(before + (seq![report] + reconcile(metadata@.skip(i as int), snapshots@.skip(j as int)))
            =~= out@ + reconcile(metadata@.skip(i as int), snapshots@.skip(j as int)));
    }
    assert(metadata@.skip(i as int) =~= Seq::<u64>::empty());
    assert(snapshots@.skip(j as int) =~= Seq::<u64>::empty());
    assert(out@ + Seq::<HealthReport>::empty() =~= out@);
    out
}

/// Strictly decreasing: newest first, no timestamp twice.
pub open spec fn strictly_newest_first(s: Seq<u64>) -> bool {
    forall|i: int, j: int| 0 <= i < j < s.len() ==> s[i] > s[j]
}

/// The tail of a list ordered newest first without repeats, and how membership splits.
proof fn lemma_head_tail(s: Seq<u64>, t: u64)
    requires
        s.len() > 0,
        strictly_newest_first(s),
    ensures
        strictly_newest_first(s.drop_first()),
        s.contains(t) <==> (s[0] == t || s.drop_first().contains(t)),
        forall|x: u64| s.drop_first().contains(x) ==> x < s[0],
{
    let d = s.drop_first();
    assert forall|i: int, j: int| 0 <= i < j < d.len() implies d[i] > d[j] by {
        assert(d[i] == s[i + 1] && d[j] == s[j + 1]);
    }
    if s.contains(t) {
        let k = choose|k: int| 0 <= k < s.len() && s[k] == t;
        if k > 0 {
            assert(d[k - 1] == t);
        }
    }
    if d.contains(t) {
        let k = choose|k: int| 0 <= k < d.len() && d[k] == t;
        assert(s[k + 1] == t);
    }
    assert forall|x: u64| d.contains(x) implies x < s[0] by {
        let k = choose|k: int| 0 <= k < d.len() && d[k] == x;
        assert(s[k + 1] < s[0]);
    }
}

/// For lists ordered newest first without repeats, a timestamp is reported as matched
/// exactly when both lists hold it, as a missing snapshot exactly when only the metadata
/// holds it, and as incomplete metadata exactly when only the directories hold it.
pub proof fn lemma_reconcile_classifies(metadata: Seq<u64>, snapshots: Seq<u64>, t: u64)
    requires
        strictly_newest_first(metadata),
        strictly_newest_first(snapshots),
    ensures
        reconcile(metadata, snapshots).contains(HealthReport::Matched(t)) <==> (metadata.contains(t)
            && snapshots.contains(t)),
        reconcile(metadata, snapshots).contains(HealthReport::MissingSnapshot(t)) <==> (metadata.contains(t)
            && !snapshots.contains(t)),
        reconcile(metadata, snapshots).contains(HealthReport::MetadataIncomplete(t)) <==> (
        !metadata.contains(t) && snapshots.contains(t)),
    decreases metadata.len() + snapshots.len(),
{
    let r = reconcile(metadata, snapshots);
    if metadata.len() == 0 && snapshots.len() == 0 {
        return;
    }
    if metadata.len() > 0 {
        lemma_head_tail(metadata, t);
        lemma_head_tail(metadata, metadata[0]);
    }
    if snapshots.len() > 0 {
        lemma_head_tail(snapshots, t);
        lemma_head_tail(snapshots, snapshots[0]);
    }
    let (head, rest) = if metadata.len() > 0 && snapshots.len() > 0 {
        let md = metadata.drop_first();
        let sd = snapshots.drop_first();
        if metadata[0] == snapshots[0] {
            lemma_reconcile_classifies(md, sd, t);
            (HealthReport::Matched(metadata[0]), reconcile(md, sd))
        } else if metadata[0] < snapshots[0] {
            lemma_reconcile_classifies(metadata, sd, t);
            (HealthReport::MetadataIncomplete(snapshots[0]), reconcile(metadata, sd))
        } else {
            lemma_reconcile_classifies(md, snapshots, t);
            (HealthReport::MissingSnapshot(metadata[0]), reconcile(md, snapshots))
        }
    } else if metadata.len() > 0 {
        let md = metadata.drop_first();
        lemma_reconcile_classifies(md, snapshots, t);
        (HealthReport::MissingSnapshot(metadata[0]), reconcile(md, snapshots))
    } else {
        let sd = snapshots.drop_first();
        lemma_reconcile_classifies(metadata, sd, t);
        (HealthReport::MetadataIncomplete(snapshots[0]), reconcile(metadata, sd))
    };
    assert(r == seq![head] + rest);
    assert forall|h: HealthReport| r.contains(h) <==> (h == head || rest.contains(h)) by {
        if r.contains(h) {
            let k = choose|k: int| 0 <= k < r.len() && r[k] == h;
            if k > 0 {
                assert(rest[k - 1] == h);
            }
        }
        if rest.contains(h) {
            let k = choose|k: int| 0 <= k < rest.len() && rest[k] == h;
            assert(r[k + 1] == h);
        }
        if h == head {
            assert(r[0] == h);
        }
    }
}

/// Terminal escape that starts a warning colour.
pub const ANSI_WARNING: &'static str = "\x1B[38;5;3m";

/// Terminal escape that starts an information colour.
pub const ANSI_INFO: &'static str = "\x1B[38;5;29m";

/// Terminal escape that resets the colour.
pub const ANSI_RESET: &'static str = "\x1B[0m";

/// The line printed for a report: the timestamp and what was found, coloured as
/// information for a match and as a warning otherwise.
pub open spec fn report_text(r: HealthReport) -> Seq<char> {
    match r {
        HealthReport::Matched(t) => "\x1B[38;5;29m"@ + decimal_digits(t as nat) + " -> Matched"@ + "\x1B[0m"@
            + "\n"@,
        HealthReport::MetadataIncomplete(t) => "\x1B[38;5;3m"@ + decimal_digits(t as nat)
            + " -> Metadata incomplete"@ + "\x1B[0m"@ + "\n"@,
        HealthReport::MissingSnapshot(t) => "\x1B[38;5;3m"@ + decimal_digits(t as nat)
            + " -> Missing snapshot"@ + "\x1B[0m"@ + "\n"@,
    }
}

fn coloured_line(colour: &str, timestamp: u64, what: &str) -> (r: String)
    ensures
        r@ == colour@ + decimal_digits(timestamp as nat) + what@ + ANSI_RESET@ + "\n"@,
{
    let mut out: Vec<char> = Vec::new();
    push_all(&mut out, &chars_of(colour));
    push_decimal(&mut out, timestamp);
    push_all(&mut out, &chars_of(what));
    push_all(&mut out, &chars_of(ANSI_RESET));
    push_all(&mut out, &chars_of("\n"));
    assert(out@ =~= colour@ + decimal_digits(timestamp as nat) + what@ + ANSI_RESET@ + "\n"@);
    string_from_chars(&out)
}

/// The line for a timestamp found in both the metadata and the snapshot directories.
pub fn matched_line(timestamp: u64) -> (r: String)
    ensures
        r@ == report_text(HealthReport::Matched(timestamp)),
{
    coloured_line(ANSI_INFO, timestamp, " -> Matched")
}

/// The line for a snapshot directory without a metadata entry.
pub fn metadata_incomplete_line(timestamp: u64) -> (r: String)
    ensures
        r@ == report_text(HealthReport::MetadataIncomplete(timestamp)),
{
    coloured_line(ANSI_WARNING, timestamp, " -> Metadata incomplete")
}

/// The line for a metadata entry without a snapshot directory.
pub fn missing_snapshot_line(timestamp: u64) -> (r: String)
    ensures
        r@ == report_text(HealthReport::MissingSnapshot(timestamp)),
{
    coloured_line(ANSI_WARNING, timestamp, " -> Missing snapshot")
}

/// The line for a report.
pub fn report_line(report: &HealthReport) -> (r: String)
    ensures
        r@ == report_text(*report),
{
    match report {
        HealthReport::Matched(t) => matched_line(*t),
        HealthReport::MetadataIncomplete(t) => metadata_incomplete_line(*t),
        HealthReport::MissingSnapshot(t) => missing_snapshot_line(*t),
    }
}

/// The line printed when the `latest` link is missing or broken.
pub fn broken_symlink_line() -> (r: String)
    ensures
        r@ == "\x1B[38;5;3m"@ + "Broken 'latest' symlink"@ + "\x1B[0m"@ + "\n"@,
{
    let mut out: Vec<char> = Vec::new();
    push_all(&mut out, &chars_of(ANSI_WARNING));
    push_all(&mut out, &chars_of("Broken 'latest' symlink"));
    push_all(&mut out, &chars_of(ANSI_RESET));
    push_all(&mut out, &chars_of("\n"));
    assert(out@ =~= "\x1B[38;5;3m"@ + "Broken 'latest' symlink"@ + "\x1B[0m"@ + "\n"@);
    string_from_chars(&out)
}

} // verus!
