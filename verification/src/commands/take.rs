//! Taking a snapshot: which files can be hard-linked to the previous snapshot, and the
//! running totals of what was copied.
use vstd::prelude::*;
use std::time::Instant;

use crate::filter::{components_view, ignored, should_ignore_components, PathComponent};
use crate::size::{format_size, size_text};
use crate::text::{chars_of, push_all, string_from_chars};

verus! {

#[verifier::external_type_specification]
#[verifier::external_body]
pub struct ExInstant(std::time::Instant);

/// std's `Instant::now`. Nothing is stated of the instant it returns.
#[verifier::external_body]
fn instant_now() -> Instant {
    Instant::now()
}

/// What a snapshot does with an entry of the tree it walks.
#[derive(Debug, Clone, Copy, PartialEq, Eq, Structural)]
pub enum EntryAction {
    /// Left out: a symbolic link, an ignored directory, or neither file nor directory.
    Skip,
    /// A directory: created in the snapshot and walked.
    Descend,
    /// A regular file: hard-linked or copied into the snapshot.
    Copy,
}

/// Symbolic links are left out; a directory is walked unless it is ignored; a regular
/// file is brought in; anything else is left out.
pub open spec fn entry_action(is_symlink: bool, is_dir: bool, is_file: bool, path: Seq<PathComponent>) -> EntryAction {
    if is_symlink {
        EntryAction::Skip
    } else if is_dir && !ignored(components_view(path)) {
        EntryAction::Descend
    } else if is_file {
        EntryAction::Copy
    } else {
        EntryAction::Skip
    }
}

/// Decides what the snapshot does with an entry, given its kind and its path's components.
pub fn plan_entry(is_symlink: bool, is_dir: bool, is_file: bool, path: &[PathComponent]) -> (r: EntryAction)
    ensures
        r == entry_action(is_symlink, is_dir, is_file, path@),
{
    if is_symlink {
        EntryAction::Skip
    } else if is_dir && !should_ignore_components(path) {
        EntryAction::Descend
    } else if is_file {
        EntryAction::Copy
    } else {
        EntryAction::Skip
    }
}

/// What the file system reports of a file (its `stat`).
#[derive(Debug, Clone, Copy, PartialEq, Eq, Structural)]
pub struct FileStat {
    pub len: u64,
    pub mtime: i64,
    pub mtime_nsec: i64,
    pub mode: u32,
    pub uid: u32,
    pub gid: u32,
    pub blocks: u64,
}

/// Whether a file is unchanged since the previous snapshot: same size, modification
/// time, mode, owner and group.
pub open spec fn unchanged(source: FileStat, target: FileStat) -> bool {
    &&& source.len == target.len
    &&& source.mtime == target.mtime
    &&& source.mtime_nsec == target.mtime_nsec
    &&& source.mode == target.mode
    &&& source.uid == target.uid
    &&& source.gid == target.gid
}

/// Determines whether source is identical to target based on size and last modification time.
pub fn is_file_unchanged(source: &FileStat, target: &FileStat) -> (r: bool)
    ensures
        r == unchanged(*source, *target),
{
    source.len == target.len && source.mtime == target.mtime && source.mtime_nsec == target.mtime_nsec
        && source.mode == target.mode && source.uid == target.uid && source.gid == target.gid
}

/// How a file entered the snapshot, with its sizes in bytes.
#[derive(Debug, Clone, Copy, PartialEq, Eq, Structural)]
pub enum IncrementalCopyStatus {
    Copied { allocated_bytes: u64, apparent_bytes: u64, delta_bytes: u64 },
    Hardlinked { allocated_bytes: u64, apparent_bytes: u64 },
}

/// Whether a file's allocated size (512-byte blocks) fits in 64 bits.
pub open spec fn allocation_fits(s: FileStat) -> bool {
    s.blocks * 512 <= u64::MAX
}

/// The way to bring a file into the snapshot: a hard link to the previous snapshot's copy
/// when that copy exists and the file is unchanged (sized by the previous copy), a fresh
/// copy otherwise (sized by the source, all of it new).
pub open spec fn copy_plan(source: FileStat, previous: Option<FileStat>) -> IncrementalCopyStatus {
    match previous {
        Some(p) => if unchanged(source, p) {
            IncrementalCopyStatus::Hardlinked { allocated_bytes: (p.blocks * 512) as u64, apparent_bytes: p.len }
        } else {
            IncrementalCopyStatus::Copied {
                allocated_bytes: (source.blocks * 512) as u64,
                apparent_bytes: source.len,
                delta_bytes: (source.blocks * 512) as u64,
            }
        },
        None => IncrementalCopyStatus::Copied {
            allocated_bytes: (source.blocks * 512) as u64,
            apparent_bytes: source.len,
            delta_bytes: (source.blocks * 512) as u64,
        },
    }
}

/// Whether the allocated size that the plan reports fits in 64 bits: the previous copy's
/// for a hard link, the source's for a copy.
pub open spec fn plan_fits(source: FileStat, previous: Option<FileStat>) -> bool {
    match previous {
        Some(p) => if unchanged(source, p) {
            allocation_fits(p)
        } else {
            allocation_fits(source)
        },
        None => allocation_fits(source),
    }
}

/// Whether `plan_incremental_copy` can size its plan for these files.
pub fn can_plan_copy(source: &FileStat, previous: Option<&FileStat>) -> (r: bool)
    ensures
        r == plan_fits(
            *source,
            match previous {
                Some(p) => Some(*p),
                None => None,
            },
        ),
{
    let sized = match previous {
        Some(p) => if is_file_unchanged(source, p) {
            p
        } else {
            source
        },
        None => source,
    };
    sized.blocks <= u64::MAX / 512
}

/// Chooses between hard-linking and copying a file.
pub fn plan_incremental_copy(source: &FileStat, previous: Option<&FileStat>) -> (r: IncrementalCopyStatus)
    requires
        plan_fits(
            *source,
            match previous {
                Some(p) => Some(*p),
                None => None,
            },
        ),
    ensures
        r == copy_plan(
            *source,
            match previous {
                Some(p) => Some(*p),
                None => None,
            },
        ),
{
    match previous {
        Some(p) => {
            if is_file_unchanged(source, p) {
                return IncrementalCopyStatus::Hardlinked { allocated_bytes: p.blocks * 512, apparent_bytes: p.len };
            }
        },
        None => {},
    }
    let size = source.blocks * 512;
    IncrementalCopyStatus::Copied { allocated_bytes: size, apparent_bytes: source.len, delta_bytes: size }
}

/// Running totals of a snapshot being taken.
pub struct IncrementalCopyTracker {
    start_time: Instant,
    allocated_bytes: u64,
    apparent_bytes: u64,
    delta_bytes: u64,
}

/// The totals a status adds: allocated, apparent and new bytes.
pub open spec fn status_sizes(s: IncrementalCopyStatus) -> (u64, u64, u64) {
    match s {
        IncrementalCopyStatus::Copied { allocated_bytes, apparent_bytes, delta_bytes } => (
            allocated_bytes,
            apparent_bytes,
            delta_bytes,
        ),
        IncrementalCopyStatus::Hardlinked { allocated_bytes, apparent_bytes } => (allocated_bytes, apparent_bytes, 0),
    }
}

impl View for IncrementalCopyTracker {
    /// Allocated, apparent and new bytes so far.
    type V = (u64, u64, u64);

    closed spec fn view(&self) -> (u64, u64, u64) {
        (self.allocated_bytes, self.apparent_bytes, self.delta_bytes)
    }
}

impl IncrementalCopyTracker {
    /// The instant the tracker was started at: taken when it was made, and kept by every
    /// count.
    pub closed spec fn started(&self) -> Instant {
        self.start_time
    }

    /// A tracker started now, with nothing counted.
    pub fn new() -> (r: Self)
        ensures
            r@ == (0u64, 0u64, 0u64),
    {
        let start_time = instant_now();
        Self { start_time, allocated_bytes: 0, apparent_bytes: 0, delta_bytes: 0 }
    }

    pub fn increase_apparent_bytes(&mut self, bytes: u64)
        requires
            old(self)@.1 + bytes <= u64::MAX,
        ensures
            final(self)@ == (old(self)@.0, (old(self)@.1 + bytes) as u64, old(self)@.2),
            final(self).started() == old(self).started(),
    {
        self.apparent_bytes = self.apparent_bytes + bytes;
    }

    pub fn increase_allocated_bytes(&mut self, bytes: u64)
        requires
            old(self)@.0 + bytes <= u64::MAX,
        ensures
            final(self)@ == ((old(self)@.0 + bytes) as u64, old(self)@.1, old(self)@.2),
            final(self).started() == old(self).started(),
    {
        self.allocated_bytes = self.allocated_bytes + bytes;
    }

    pub fn increase_delta_bytes(&mut self, bytes: u64)
        requires
            old(self)@.2 + bytes <= u64::MAX,
        ensures
            final(self)@ == (old(self)@.0, old(self)@.1, (old(self)@.2 + bytes) as u64),
            final(self).started() == old(self).started(),
    {
        self.delta_bytes = self.delta_bytes + bytes;
    }

    /// Counts a file that entered the snapshot: a copy adds to all three totals, a hard
    /// link to the allocated and apparent totals.
    pub fn record(&mut self, status: &IncrementalCopyStatus)
        requires
            old(self)@.0 + status_sizes(*status).0 <= u64::MAX,
            old(self)@.1 + status_sizes(*status).1 <= u64::MAX,
            old(self)@.2 + status_sizes(*status).2 <= u64::MAX,
        ensures
            final(self)@ == (
                (old(self)@.0 + status_sizes(*status).0) as u64,
                (old(self)@.1 + status_sizes(*status).1) as u64,
                (old(self)@.2 + status_sizes(*status).2) as u64,
            ),
            final(self).started() == old(self).started(),
    {
        match status {
            IncrementalCopyStatus::Copied { allocated_bytes, apparent_bytes, delta_bytes } => {
                self.increase_allocated_bytes(*allocated_bytes);
                self.increase_apparent_bytes(*apparent_bytes);
                self.increase_delta_bytes(*delta_bytes);
            },
            IncrementalCopyStatus::Hardlinked { allocated_bytes, apparent_bytes } => {
                self.increase_allocated_bytes(*allocated_bytes);
                self.increase_apparent_bytes(*apparent_bytes);
            },
        }
    }

    /// Whether a status can be counted without a total passing 64 bits.
    pub fn can_record(&self, status: &IncrementalCopyStatus) -> (r: bool)
        ensures
            r == (self@.0 + status_sizes(*status).0 <= u64::MAX && self@.1 + status_sizes(*status).1 <= u64::MAX
                && self@.2 + status_sizes(*status).2 <= u64::MAX),
    {
        let (a, b, c) = match status {
            IncrementalCopyStatus::Copied { allocated_bytes, apparent_bytes, delta_bytes } => (
                *allocated_bytes,
                *apparent_bytes,
                *delta_bytes,
            ),
            IncrementalCopyStatus::Hardlinked { allocated_bytes, apparent_bytes } => (*allocated_bytes, *apparent_bytes, 0),
        };
        a <= u64::MAX - self.allocated_bytes && b <= u64::MAX - self.apparent_bytes && c <= u64::MAX - self.delta_bytes
    }

    /// The instant the tracker was started at.
    pub fn start_time(&self) -> (r: Instant)
        ensures
            r == self.started(),
    {
        self.start_time
    }

    pub fn allocated_bytes(&self) -> (r: u64)
        ensures
            r == self@.0,
    {
        self.allocated_bytes
    }

    pub fn apparent_bytes(&self) -> (r: u64)
        ensures
            r == self@.1,
    {
        self.apparent_bytes
    }

    pub fn delta_bytes(&self) -> (r: u64)
        ensures
            r == self@.2,
    {
        self.delta_bytes
    }

    /// The sizes part of the tracker's report: allocated, apparent and new bytes, each
    /// formatted for display on a tab-indented line.
    pub fn sizes_report(&self) -> (r: String)
        ensures
            r@ == "\tAllocated size: "@ + size_text(self@.0) + " \n\tApparent size: "@ + size_text(self@.1)
                + " \n\tDelta size: "@ + size_text(self@.2),
    {
        let mut out: Vec<char> = Vec::new();
        push_all(&mut out, &chars_of("\tAllocated size: "));
        push_all(&mut out, &chars_of(&format_size(self.allocated_bytes)));
        push_all(&mut out, &chars_of(" \n\tApparent size: "));
        push_all(&mut out, &chars_of(&format_size(self.apparent_bytes)));
        push_all(&mut out, &chars_of(" \n\tDelta size: "));
        push_all(&mut out, &chars_of(&format_size(self.delta_bytes)));
        assert(out@ =~= "\tAllocated size: "@ + size_text(self@.0) + " \n\tApparent size: "@ + size_text(self@.1)
            + " \n\tDelta size: "@ + size_text(self@.2));
        string_from_chars(&out)
    }
}

/// A file counts as unchanged exactly when its size, modification time (seconds and
/// nanoseconds), mode, owner and group all equal those of the previous copy; the number of
/// blocks plays no part.
pub proof fn lemma_unchanged_fields(source: FileStat, target: FileStat)
    ensures
        unchanged(source, target) <==> (source.len == target.len && source.mtime == target.mtime
            && source.mtime_nsec == target.mtime_nsec && source.mode == target.mode && source.uid == target.uid
            && source.gid == target.gid),
{
}

/// The plan hard-links a file exactly when a previous copy exists with the same size,
/// modification time, mode, owner and group, and then sizes it by that copy; otherwise it
/// copies the file, all its allocated bytes new.
pub proof fn lemma_copy_plan_decision(source: FileStat, previous: Option<FileStat>, plan: IncrementalCopyStatus)
    requires
        plan == copy_plan(source, previous),
        plan_fits(source, previous),
    ensures
        plan is Hardlinked <==> (previous matches Some(p) && source.len == p.len && source.mtime == p.mtime
            && source.mtime_nsec == p.mtime_nsec && source.mode == p.mode && source.uid == p.uid
            && source.gid == p.gid),
        plan matches IncrementalCopyStatus::Hardlinked { allocated_bytes, apparent_bytes } ==> (previous matches Some(
            p,
        ) && allocated_bytes == p.blocks * 512 && apparent_bytes == p.len),
        plan matches IncrementalCopyStatus::Copied { allocated_bytes, apparent_bytes, delta_bytes } ==> (
        allocated_bytes == source.blocks * 512 && delta_bytes == source.blocks * 512 && apparent_bytes
            == source.len),
{
}

} // verus!
