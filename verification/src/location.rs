//! Where snapshots live: the paths under the snapshot directory of a host, and the
//! timestamps of the snapshots found there.
use vstd::prelude::*;

use crate::error::Error;
use crate::text::{
    chars_of, decimal_digits, parse_u64, parse_unsigned, push_all, push_decimal, string_from_chars,
    trim, trim_chars,
};

verus! {

/// The directory that holds the snapshots of every host.
pub const BASE_SNAPSHOT_DIR: &'static str = "/var/snaps/snapshots";

/// The file the kernel reports the host name in.
pub const HOSTNAME_FILE: &'static str = "/proc/sys/kernel/hostname";

/// `base` joined with `part` as a path: an absolute `part` replaces `base`; otherwise a
/// separator goes between them unless `base` is empty or already ends with one.
pub open spec fn path_join(base: Seq<char>, part: Seq<char>) -> Seq<char> {
    if part.len() > 0 && part[0] == '/' {
        part
    } else if base.len() > 0 && base.last() != '/' {
        base + seq!['/'] + part
    } else {
        base + part
    }
}

/// Joins two paths.
pub fn join_path(base: &str, part: &str) -> (r: String)
    ensures
        r@ == path_join(base@, part@),
{
    let b = chars_of(base);
    let p = chars_of(part);
    if p.len() > 0 && p[0] == '/' {
        return string_from_chars(&p);
    }
    let mut out = b.clone();
    if b.len() > 0 && b[b.len() - 1] != '/' {
        out.push('/');
    }
    push_all(&mut out, &p);
    proof {
        if !(b@.len() > 0 && b@.last() != '/') {
            assert(out@ =~= base@ + part@);
        } else {
            assert(out@ =~= base@ + seq!['/'] + part@);
        }
    }
    string_from_chars(&out)
}

/// The host name given by the contents of the host name file: those contents trimmed.
pub fn get_hostname(content: &str) -> (r: String)
    ensures
        r@ == trim(content@),
{
    string_from_chars(&trim_chars(&chars_of(content)))
}

/// The snapshot directory of the host whose host name file holds `content`.
pub open spec fn host_location(content: Seq<char>) -> Seq<char> {
    path_join("/var/snaps/snapshots"@, trim(content))
}

/// Returns the snapshot directory of the host.
pub fn get_host_location(content: &str) -> (r: String)
    ensures
        r@ == host_location(content@),
{
    let hostname = get_hostname(content);
    join_path(BASE_SNAPSHOT_DIR, hostname.as_str())
}

/// Returns the path of the host's `latest` link.
pub fn get_latest_location(content: &str) -> (r: String)
    ensures
        r@ == path_join(host_location(content@), "latest"@),
{
    let host = get_host_location(content);
    join_path(host.as_str(), "latest")
}

/// Returns the directory of the host's snapshot taken at `timestamp`.
pub fn construct_snapshot_directory_name(content: &str, timestamp: u64) -> (r: String)
    ensures
        r@ == path_join(host_location(content@), decimal_digits(timestamp as nat)),
{
    let host = get_host_location(content);
    join_path(host.as_str(), timestamp_text(timestamp).as_str())
}

/// Returns the directory a snapshot taken at `timestamp` is written to before it is
/// complete: under `.pending` in the host's directory.
pub fn pending_snapshot_location(content: &str, timestamp: u64) -> (r: String)
    ensures
        r@ == path_join(path_join(host_location(content@), ".pending"@), decimal_digits(timestamp as nat)),
{
    let host = get_host_location(content);
    let pending = join_path(host.as_str(), ".pending");
    join_path(pending.as_str(), timestamp_text(timestamp).as_str())
}

fn timestamp_text(timestamp: u64) -> (r: String)
    ensures
        r@ == decimal_digits(timestamp as nat),
{
    let mut out: Vec<char> = Vec::new();
    push_decimal(&mut out, timestamp);
    assert(out@ =~= decimal_digits(timestamp as nat));
    string_from_chars(&out)
}

/// The timestamp a snapshot directory is named by, if its name is one.
pub fn snapshot_timestamp(name: &str) -> (r: Option<u64>)
    ensures
        match parse_unsigned(name@, u64::MAX as nat) {
            Some(v) => r == Some(v as u64),
            None => r is None,
        },
{
    match parse_u64(name) {
        Ok(v) => Some(v),
        Err(_) => None,
    }
}

/// An entry of a host's snapshot directory: whether it is a directory, and its name when
/// that name is valid UTF-8.
#[derive(Debug)]
pub struct DirEntryInfo {
    pub is_dir: bool,
    pub name: Option<String>,
}

/// The name under which an entry counts as a snapshot: a directory whose name is readable
/// and does not start with a dot.
pub open spec fn snapshot_entry_name(e: DirEntryInfo) -> Option<Seq<char>> {
    if e.is_dir {
        match e.name {
            Some(n) => if n@.len() > 0 && n@[0] == '.' {
                None
            } else {
                Some(n@)
            },
            None => None,
        }
    } else {
        None
    }
}

/// The timestamps named by the snapshot entries, in the order of the entries; `None` when
/// one of those names is not a `u64`.
pub open spec fn entry_timestamps(es: Seq<DirEntryInfo>) -> Option<Seq<u64>>
    decreases es.len(),
{
    if es.len() == 0 {
        Some(Seq::empty())
    } else {
        match entry_timestamps(es.drop_last()) {
            None => None,
            Some(ts) => match snapshot_entry_name(es.last()) {
                None => Some(ts),
                Some(n) => match parse_unsigned(n, u64::MAX as nat) {
                    Some(v) => Some(ts.push(v as u64)),
                    None => None,
                },
            },
        }
    }
}

/// Whether timestamps are in decreasing order, newest first.
pub open spec fn sorted_descending(s: Seq<u64>) -> bool {
    forall|i: int, j: int| 0 <= i < j < s.len() ==> s[i] >= s[j]
}

/// The timestamps of the snapshots among a host directory's entries, newest first: every
/// directory whose name does not start with a dot must be named by its timestamp.
pub fn order_snapshot_entries(entries: &[DirEntryInfo]) -> (r: Result<Vec<u64>, Error>)
    ensures
        match entry_timestamps(entries@) {
            Some(ts) => r matches Ok(v) && v@.to_multiset() == ts.to_multiset() && sorted_descending(v@),
            None => r matches Err(Error::ParseInt(_)),
        },
{
    let mut snapshots: Vec<u64> = Vec::new();
    let mut i: usize = 0;
    while i < entries.len()
        invariant
            0 <= i <= entries@.len(),
            entry_timestamps(entries@.take(i as int)) == Some(snapshots@),
        decreases entries@.len() - i,
    {
        proof {
            assert(entries@.take(i + 1).drop_last() =~= entries@.take(i as int));
            assert(entries@.take(i + 1).last() == entries@[i as int]);
        }
        let entry = &entries[i];
        if entry.is_dir {
            match &entry.name {
                Some(name) => {
                    let n = chars_of(name.as_str());
                    if !(n.len() > 0 && n[0] == '.') {
                        match parse_u64(name.as_str()) {
                            Ok(timestamp) => {
                                snapshots.push(timestamp);
                            },
                            Err(e) => {
                                proof {
                                    lemma_timestamps_none_extends(entries@, i as int + 1);
                                }
                                return Err(Error::ParseInt(e));
                            },
                        }
                    }
                },
                None => {},
            }
        }
        i = i + 1;
    }
    assert(entries@.take(entries@.len() as int) =~= entries@);
    Ok(sort_descending(snapshots))
}

/// Once a prefix of the entries names no timestamps, neither does any longer prefix.
proof fn lemma_timestamps_none_extends(es: Seq<DirEntryInfo>, k: int)
    requires
        0 <= k <= es.len(),
        entry_timestamps(es.take(k)) is None,
    ensures
        entry_timestamps(es) is None,
    decreases es.len() - k,
{
    if k < es.len() {
        assert(es.take(k + 1).drop_last() =~= es.take(k));
        lemma_timestamps_none_extends(es, k + 1);
    } else {
        assert(es.take(k) =~= es);
    }
}

/// The timestamps reordered newest first.
fn sort_descending(v: Vec<u64>) -> (r: Vec<u64>)
    ensures
        r@.to_multiset() == v@.to_multiset(),
        sorted_descending(r@),
{
    broadcast use vstd::seq_lib::group_to_multiset_ensures;
    broadcast use vstd::multiset::group_multiset_axioms;
    let mut rest = v;
    let mut sorted: Vec<u64> = Vec::new();
    while rest.len() > 0
        invariant
            sorted@.to_multiset().add(rest@.to_multiset()) == v@.to_multiset(),
            sorted_descending(sorted@),
        decreases rest@.len(),
    {
        let ghost before_rest = rest@;
        let ghost a = sorted@;
        let x = rest.pop().unwrap();
        assert(before_rest =~= rest@.push(x));
        let mut p: usize = 0;
        while p < sorted.len() && sorted[p] > x
            invariant
                0 <= p <= sorted@.len(),
                sorted@ == a,
                forall|k: int| 0 <= k < p ==> sorted@[k] > x,
            decreases sorted@.len() - p,
        {
            p = p + 1;
        }
        assert(p < a.len() ==> a[p as int] <= x);
        sorted.insert(p, x);
        proof {
            let s = sorted@;
            let l = a.take(p as int);
            let rr = a.skip(p as int);
            assert(s =~= l.push(x) + rr);
            assert(a =~= l + rr);
            vstd::seq_lib::lemma_multiset_commutative(l.push(x), rr);
            vstd::seq_lib::lemma_multiset_commutative(l, rr);
            vstd::seq_lib::to_multiset_build(l, x);
            vstd::seq_lib::to_multiset_build(rest@, x);
            assert(before_rest.to_multiset() =~= rest@.to_multiset().insert(x));
            assert(s.to_multiset().add(rest@.to_multiset()) =~= a.to_multiset().add(before_rest.to_multiset()));
            assert forall|i: int, j: int| 0 <= i < j < s.len() implies s[i] >= s[j] by {
                if j < p {
                    assert(s[i] == a[i] && s[j] == a[j]);
                } else if j == p {
                    assert(s[i] == a[i]);
                } else if i < p {
                    assert(s[j] == a[j - 1]);
                    assert(s[i] == a[i]);
                } else if i == p {
                    assert(s[j] == a[j - 1]);
                } else {
                    assert(s[j] == a[j - 1]);
                    assert(s[i] == a[i - 1]);
                }
            }
        }
    }
    assert(rest@ =~= Seq::<u64>::empty());
    sorted
}

} // verus!
