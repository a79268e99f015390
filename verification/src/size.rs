//! Sizes: human-readable byte counts, and the totals of a directory walk that counts
//! hard-linked files once.
use vstd::prelude::*;
use std::collections::HashSet;

use crate::text::{
    chars_of, decimal_digits, digit_char, pad_right, push_all, push_decimal, push_padded_right, string_from_chars,
};

verus! {

broadcast use vstd::std_specs::hash::group_hash_axioms;

pub const KB: u64 = 1024;

pub const MB: u64 = 1048576;

pub const GB: u64 = 1073741824;

/// The spacing of the 64-bit floats around `b` (a power of two, from 1 up to 2^11): the
/// least one, doubling from `u`, for which `b` has at most 53 significant bits.
pub open spec fn float_spacing_from(b: nat, u: nat, fuel: nat) -> nat
    decreases fuel,
{
    if fuel == 0 || b < 9007199254740992 * u {
        u
    } else {
        float_spacing_from(b, 2 * u, (fuel - 1) as nat)
    }
}

pub open spec fn float_spacing(b: nat) -> nat {
    float_spacing_from(b, 1, 11)
}

/// The value of `b as f64`: `b` rounded to the nearest float, ties to the even one.
pub open spec fn round_to_float(b: nat) -> nat {
    let u = float_spacing(b);
    let lo = b % u;
    let base = (b - lo) as nat;
    if 2 * lo > u || (2 * lo == u && (base / u) % 2 == 1) {
        base + u
    } else {
        base
    }
}

/// `v / d` in hundredths, rounded to the nearest, ties to the even one.
pub open spec fn hundredths(v: nat, d: nat) -> nat {
    let q = (100 * v) / d;
    let r = (100 * v) % d;
    if 2 * r > d || (2 * r == d && q % 2 == 1) {
        q + 1
    } else {
        q
    }
}

/// A count of hundredths written with two decimals, such as `12.05`.
pub open spec fn two_decimals(h: nat) -> Seq<char> {
    decimal_digits(h / 100) + seq!['.', digit_char((h / 10) % 10), digit_char(h % 10)]
}

/// How a byte count is shown: from 2^30 bytes on, as the float `bytes / 2^30` with two
/// decimals and ` GB`; from 2^20 on, likewise with ` MB`; below, the byte count itself
/// followed by ` KB`.
pub open spec fn size_text(bytes: u64) -> Seq<char> {
    if bytes >= GB {
        two_decimals(hundredths(round_to_float(bytes as nat), GB as nat)) + " GB"@
    } else if bytes >= MB {
        two_decimals(hundredths(round_to_float(bytes as nat), MB as nat)) + " MB"@
    } else {
        decimal_digits(bytes as nat) + " KB"@
    }
}

fn spacing(b: u64) -> (u: u128)
    ensures
        u as nat == float_spacing(b as nat),
        1 <= u <= 2048,
{
    let mut u: u128 = 1;
    let mut fuel: u64 = 11;
    while fuel > 0 && (b as u128) >= 9007199254740992u128 * u
        invariant
            0 <= fuel <= 11,
            1 <= u,
            u == unit_at(fuel),
            float_spacing(b as nat) == float_spacing_from(b as nat, u as nat, fuel as nat),
        decreases fuel,
    {
        u = 2 * u;
        fuel = fuel - 1;
    }
    u
}

spec fn unit_at(fuel: u64) -> u128 {
    if fuel == 11 { 1 } else if fuel == 10 { 2 } else if fuel == 9 { 4 } else if fuel == 8 { 8 }
    else if fuel == 7 { 16 } else if fuel == 6 { 32 } else if fuel == 5 { 64 } else if fuel == 4 { 128 }
    else if fuel == 3 { 256 } else if fuel == 2 { 512 } else if fuel == 1 { 1024 } else { 2048 }
}

fn push_digit(out: &mut Vec<char>, d: u128)
    requires
        d < 10,
    ensures
        final(out)@ == old(out)@.push(digit_char(d as nat)),
{
    let c: char = if d == 0 { '0' } else if d == 1 { '1' } else if d == 2 { '2' } else if d == 3 { '3' }
        else if d == 4 { '4' } else if d == 5 { '5' } else if d == 6 { '6' } else if d == 7 { '7' }
        else if d == 8 { '8' } else { '9' };
    out.push(c);
}

/// Formats a byte count for display.
pub fn format_size(bytes: u64) -> (r: String)
    ensures
        r@ == size_text(bytes),
{
    let mut out: Vec<char> = Vec::new();
    if bytes >= MB {
        let d: u128 = if bytes >= GB { GB as u128 } else { MB as u128 };
        let u = spacing(bytes);
        let b = bytes as u128;
        let lo = b % u;
        let base = b - lo;
        let f: u128 = if 2 * lo > u || (2 * lo == u && (base / u) % 2 == 1) { base + u } else { base };
        assert(f as nat == round_to_float(bytes as nat));
        assert(f <= 18446744073709551615u128 + 2048);
        let q = (100 * f) / d;
        let r = (100 * f) % d;
        let h: u128 = if 2 * r > d || (2 * r == d && q % 2 == 1) { q + 1 } else { q };
        assert(h as nat == hundredths(f as nat, d as nat));
        assert(h / 100 <= u64::MAX) by (nonlinear_arith)
            requires
                h <= q + 1,
                q == (100 * f) / (d as int),
                d >= 1048576,
                f <= 18446744073709551615u128 + 2048;
        push_decimal(&mut out, (h / 100) as u64);
        out.push('.');
        push_digit(&mut out, (h / 10) % 10);
        push_digit(&mut out, h % 10);
        if bytes >= GB {
            push_all(&mut out, &chars_of(" GB"));
        } else {
            push_all(&mut out, &chars_of(" MB"));
        }
        assert(out@ =~= size_text(bytes));
    } else {
        push_decimal(&mut out, bytes);
        push_all(&mut out, &chars_of(" KB"));
    }
    string_from_chars(&out)
}

/// A line of the size table: five columns 12, 20, 10, 10 and 10 characters wide,
/// separated by ` | `.
pub open spec fn table_line_text(a: Seq<char>, b: Seq<char>, c: Seq<char>, d: Seq<char>, e: Seq<char>) -> Seq<
    char,
> {
    pad_right(a, 12) + " | "@ + pad_right(b, 20) + " | "@ + pad_right(c, 10) + " | "@ + pad_right(d, 10) + " | "@
        + pad_right(e, 10) + "\n"@
}

fn table_line(a: &str, b: &str, c: &str, d: &str, e: &str) -> (r: String)
    ensures
        r@ == table_line_text(a@, b@, c@, d@, e@),
{
    let mut out: Vec<char> = Vec::new();
    push_padded_right(&mut out, &chars_of(a), 12);
    push_all(&mut out, &chars_of(" | "));
    push_padded_right(&mut out, &chars_of(b), 20);
    push_all(&mut out, &chars_of(" | "));
    push_padded_right(&mut out, &chars_of(c), 10);
    push_all(&mut out, &chars_of(" | "));
    push_padded_right(&mut out, &chars_of(d), 10);
    push_all(&mut out, &chars_of(" | "));
    push_padded_right(&mut out, &chars_of(e), 10);
    push_all(&mut out, &chars_of("\n"));
    assert(out@ =~= table_line_text(a@, b@, c@, d@, e@));
    string_from_chars(&out)
}

/// The heading of the size table.
pub fn size_table_header() -> (r: String)
    ensures
        r@ == table_line_text("Host"@, "Snapshot"@, "Unique"@, "Hard-link"@, "Total"@),
{
    table_line("Host", "Snapshot", "Unique", "Hard-link", "Total")
}

/// The size table's line for a snapshot: its host, its name, and its unique, hard-linked
/// and total bytes formatted for display.
pub fn size_table_row(host: &str, snapshot: &str, unique: u64, shared: u64) -> (r: String)
    requires
        unique + shared <= u64::MAX,
    ensures
        r@ == table_line_text(host@, snapshot@, size_text(unique), size_text(shared), size_text((unique + shared) as u64)),
{
    let u = format_size(unique);
    let h = format_size(shared);
    let t = format_size(unique + shared);
    table_line(host, snapshot, u.as_str(), h.as_str(), t.as_str())
}

/// What a directory walk reads of one entry: its kind (from the entry itself, links not
/// followed) and the fields of its `stat`.
#[derive(Debug, Clone, Copy, PartialEq, Eq, Structural)]
pub struct EntryStat {
    pub is_symlink: bool,
    pub is_file: bool,
    pub is_dir: bool,
    pub nlink: u64,
    pub dev: u64,
    pub ino: u64,
    pub len: u64,
    pub blocks: u64,
}

/// Sizes summed over a directory tree: apparent sizes (`st_size`) and allocated 512-byte
/// blocks (`st_blocks`), over everything and over the files with more than one hard link,
/// each such file counted once.
pub struct DirectorySize {
    st_size: u64,
    st_blocks: u64,
    shared_st_size: u64,
    shared_st_blocks: u64,
}

impl View for DirectorySize {
    /// `(st_size, st_blocks, shared_st_size, shared_st_blocks)`.
    type V = (u64, u64, u64, u64);

    closed spec fn view(&self) -> (u64, u64, u64, u64) {
        (self.st_size, self.st_blocks, self.shared_st_size, self.shared_st_blocks)
    }
}

/// The shared part of a tree never exceeds the whole.
pub open spec fn shared_within_total(t: (u64, u64, u64, u64)) -> bool {
    t.2 <= t.0 && t.3 <= t.1
}

impl DirectorySize {
    #[verifier::type_invariant]
    closed spec fn shared_within(self) -> bool {
        shared_within_total(self@)
    }

    pub fn st_size(&self) -> (r: u64)
        ensures
            r == self@.0,
    {
        self.st_size
    }

    pub fn st_blocks(&self) -> (r: u64)
        ensures
            r == self@.1,
    {
        self.st_blocks
    }

    pub fn shared_st_size(&self) -> (r: u64)
        ensures
            r == self@.2,
    {
        self.shared_st_size
    }

    pub fn shared_st_blocks(&self) -> (r: u64)
        ensures
            r == self@.3,
    {
        self.shared_st_blocks
    }

    /// Bytes allocated to what is not hard-linked elsewhere: the blocks outside the shared
    /// files, 512 bytes each.
    pub fn unique_bytes(&self) -> (r: u64)
        requires
            (self@.1 - self@.3) * 512 <= u64::MAX,
        ensures
            r == (self@.1 - self@.3) * 512,
            shared_within_total(self@),
    {
        proof {
            use_type_invariant(self);
        }
        (self.st_blocks - self.shared_st_blocks) * 512
    }

    /// Bytes allocated to the hard-linked files.
    pub fn shared_bytes(&self) -> (r: u64)
        requires
            self@.3 * 512 <= u64::MAX,
        ensures
            r == self@.3 * 512,
    {
        self.shared_st_blocks * 512
    }

    /// A one-line report of the four sizes, each formatted for display, blocks as bytes.
    pub fn describe(&self) -> (r: String)
        requires
            self@.1 * 512 <= u64::MAX,
            self@.3 * 512 <= u64::MAX,
        ensures
            r@ == "st_size: "@ + size_text(self@.0) + ", st_blocks: "@ + size_text((self@.1 * 512) as u64)
                + ", shared st_size: "@ + size_text(self@.2) + ", shared st_blocks: "@ + size_text(
                (self@.3 * 512) as u64,
            ) + "\n"@,
    {
        let mut out: Vec<char> = Vec::new();
        push_all(&mut out, &chars_of("st_size: "));
        push_all(&mut out, &chars_of(&format_size(self.st_size)));
        push_all(&mut out, &chars_of(", st_blocks: "));
        push_all(&mut out, &chars_of(&format_size(self.st_blocks * 512)));
        push_all(&mut out, &chars_of(", shared st_size: "));
        push_all(&mut out, &chars_of(&format_size(self.shared_st_size)));
        push_all(&mut out, &chars_of(", shared st_blocks: "));
        push_all(&mut out, &chars_of(&format_size(self.shared_st_blocks * 512)));
        push_all(&mut out, &chars_of("\n"));
        assert(out@ =~= "st_size: "@ + size_text(self@.0) + ", st_blocks: "@ + size_text(
            (self@.1 * 512) as u64,
        ) + ", shared st_size: "@ + size_text(self@.2) + ", shared st_blocks: "@ + size_text(
            (self@.3 * 512) as u64,
        ) + "\n"@);
        string_from_chars(&out)
    }
}

/// The hash-set key of an inode: its device and inode numbers side by side in 128 bits.
pub open spec fn inode_key(dev: u64, ino: u64) -> u128 {
    (dev * 0x1_0000_0000_0000_0000 + ino) as u128
}

fn make_inode_key(dev: u64, ino: u64) -> (k: u128)
    ensures
        k == inode_key(dev, ino),
{
    assert((dev as int) * 0x1_0000_0000_0000_0000 + (ino as int) <= u128::MAX) by (nonlinear_arith)
        requires
            dev <= u64::MAX,
            ino <= u64::MAX,
    ;
    (dev as u128) * 0x1_0000_0000_0000_0000u128 + (ino as u128)
}

/// A file whose data other paths share: a regular file with more than one link.
pub open spec fn is_shared_file(e: EntryStat) -> bool {
    e.is_file && e.nlink > 1
}

/// Whether the walk passes over an entry without counting it: a symbolic link, or a
/// hard-linked file whose inode was already counted.
pub open spec fn skipped(seen: Set<u128>, e: EntryStat) -> bool {
    e.is_symlink || (is_shared_file(e) && seen.contains(inode_key(e.dev, e.ino)))
}

/// The state of a walk (inodes counted, totals) after one more entry: a skipped entry
/// changes nothing; a hard-linked file seen for the first time is recorded and added to
/// the shared totals and to the totals; any other entry is added to the totals.
pub open spec fn walk_step(w: (Set<u128>, (u64, u64, u64, u64)), e: EntryStat) -> (
    Set<u128>,
    (u64, u64, u64, u64),
) {
    let seen = w.0;
    let t = w.1;
    if skipped(seen, e) {
        w
    } else if is_shared_file(e) {
        (
            seen.insert(inode_key(e.dev, e.ino)),
            ((t.0 + e.len) as u64, (t.1 + e.blocks) as u64, (t.2 + e.len) as u64, (t.3 + e.blocks) as u64),
        )
    } else {
        (seen, ((t.0 + e.len) as u64, (t.1 + e.blocks) as u64, t.2, t.3))
    }
}

/// Once a hard-linked file has been counted, any entry for the same inode (same device
/// and inode numbers) that follows changes nothing: each such file counts once.
pub proof fn lemma_inode_counted_once(w: (Set<u128>, (u64, u64, u64, u64)), first: EntryStat, again: EntryStat)
    requires
        is_shared_file(first),
        !first.is_symlink,
        is_shared_file(again),
        again.dev == first.dev,
        again.ino == first.ino,
    ensures
        walk_step(walk_step(w, first), again) == walk_step(w, first),
{
    let k = inode_key(first.dev, first.ino);
    assert(walk_step(w, first).0.contains(k));
}

/// A directory walk in progress: the inodes of hard-linked files already counted and the
/// running totals.
pub struct DirectorySizeWalk {
    inode_history: HashSet<u128>,
    st_size: u64,
    st_blocks: u64,
    shared_st_size: u64,
    shared_st_blocks: u64,
}

impl View for DirectorySizeWalk {
    type V = (Set<u128>, (u64, u64, u64, u64));

    closed spec fn view(&self) -> (Set<u128>, (u64, u64, u64, u64)) {
        (self.inode_history@, (self.st_size, self.st_blocks, self.shared_st_size, self.shared_st_blocks))
    }
}

impl DirectorySizeWalk {
    /// The walk's invariant: its shared totals within its totals.
    pub open spec fn wf(&self) -> bool {
        shared_within_total(self@.1)
    }

    /// A walk from a directory: nothing seen yet, the directory's own size counted.
    pub fn new(root: &EntryStat) -> (r: Self)
        ensures
            r.wf(),
            r@ == (Set::<u128>::empty(), (root.len, root.blocks, 0u64, 0u64)),
    {
        DirectorySizeWalk {
            inode_history: HashSet::with_capacity(10000),
            st_size: root.len,
            st_blocks: root.blocks,
            shared_st_size: 0,
            shared_st_blocks: 0,
        }
    }

    /// Whether an entry can be counted without a total passing 64 bits.
    pub fn fits(&self, entry: &EntryStat) -> (r: bool)
        ensures
            r == (self@.1.0 + entry.len <= u64::MAX && self@.1.1 + entry.blocks <= u64::MAX),
    {
        entry.len <= u64::MAX - self.st_size && entry.blocks <= u64::MAX - self.st_blocks
    }

    /// Counts one entry of the tree; returns whether the walk goes down into it (a
    /// directory that was not skipped).
    pub fn visit(&mut self, entry: &EntryStat) -> (descend: bool)
        requires
            old(self).wf(),
            old(self)@.1.0 + entry.len <= u64::MAX,
            old(self)@.1.1 + entry.blocks <= u64::MAX,
        ensures
            final(self).wf(),
            final(self)@ == walk_step(old(self)@, *entry),
            descend == (!skipped(old(self)@.0, *entry) && entry.is_dir),
    {
        broadcast use vstd::std_specs::hash::group_hash_axioms;
        if entry.is_symlink {
            return false;
        }
        if entry.is_file && entry.nlink > 1 {
            let key = make_inode_key(entry.dev, entry.ino);
            if !self.inode_history.insert(key) {
                return false;
            }
            self.shared_st_size = self.shared_st_size + entry.len;
            self.shared_st_blocks = self.shared_st_blocks + entry.blocks;
        }
        self.st_size = self.st_size + entry.len;
        self.st_blocks = self.st_blocks + entry.blocks;
        entry.is_dir
    }

    /// The totals of the walk.
    pub fn finish(self) -> (r: DirectorySize)
        requires
            self.wf(),
        ensures
            r@ == self@.1,
            shared_within_total(r@),
    {
        DirectorySize {
            st_size: self.st_size,
            st_blocks: self.st_blocks,
            shared_st_size: self.shared_st_size,
            shared_st_blocks: self.shared_st_blocks,
        }
    }
}

} // verus!
