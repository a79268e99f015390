//! Snapshot retention tags and the snapshot metadata file: one entry per snapshot,
//! written as `<timestamp>:<tag>,<tag>,...;` followed by a newline.
use vstd::prelude::*;
use std::collections::HashMap;

use crate::error::Error;
use crate::text::{
    is_white_space,
    chars_eq, chars_of, decimal_digits, find_last, parse_u64_chars, parse_unsigned, push_all,
    push_decimal, rsplit_once, slice_chars, split_chars, split_on, string_from_chars, trim,
    trim_chars,
};

verus! {

broadcast use vstd::std_specs::hash::group_hash_axioms;

#[derive(Debug, PartialEq, Eq, Clone, Copy, Structural)]
pub enum RetentionTag {
    Untagged,
    Hourly,
    Daily,
    Weekly,
    Monthly,
    Adhoc,
}

/// Every retention tag, in display order.
pub open spec fn all_tags() -> Seq<RetentionTag> {
    seq![
        RetentionTag::Untagged,
        RetentionTag::Hourly,
        RetentionTag::Daily,
        RetentionTag::Weekly,
        RetentionTag::Monthly,
        RetentionTag::Adhoc,
    ]
}

/// The one-letter acronym of each tag.
pub open spec fn acronym(t: RetentionTag) -> char {
    match t {
        RetentionTag::Untagged => 'u',
        RetentionTag::Hourly => 'h',
        RetentionTag::Daily => 'd',
        RetentionTag::Weekly => 'w',
        RetentionTag::Monthly => 'm',
        RetentionTag::Adhoc => 'a',
    }
}

/// The name of each tag, as written in the metadata file.
pub open spec fn tag_name(t: RetentionTag) -> Seq<char> {
    match t {
        RetentionTag::Untagged => "untagged"@,
        RetentionTag::Hourly => "hourly"@,
        RetentionTag::Daily => "daily"@,
        RetentionTag::Weekly => "weekly"@,
        RetentionTag::Monthly => "monthly"@,
        RetentionTag::Adhoc => "adhoc"@,
    }
}

/// The tag with the given name, if any.
pub open spec fn tag_from_name(s: Seq<char>) -> Option<RetentionTag> {
    if s == "untagged"@ {
        Some(RetentionTag::Untagged)
    } else if s == "hourly"@ {
        Some(RetentionTag::Hourly)
    } else if s == "daily"@ {
        Some(RetentionTag::Daily)
    } else if s == "weekly"@ {
        Some(RetentionTag::Weekly)
    } else if s == "monthly"@ {
        Some(RetentionTag::Monthly)
    } else if s == "adhoc"@ {
        Some(RetentionTag::Adhoc)
    } else {
        None
    }
}

/// The tag with the given acronym, if any.
pub open spec fn tag_from_acronym(c: char) -> Option<RetentionTag> {
    if c == 'u' {
        Some(RetentionTag::Untagged)
    } else if c == 'h' {
        Some(RetentionTag::Hourly)
    } else if c == 'd' {
        Some(RetentionTag::Daily)
    } else if c == 'w' {
        Some(RetentionTag::Weekly)
    } else if c == 'm' {
        Some(RetentionTag::Monthly)
    } else if c == 'a' {
        Some(RetentionTag::Adhoc)
    } else {
        None
    }
}

/// One character per tag of `all_tags()`: its acronym when `tags` holds it, `-` otherwise.
pub open spec fn tags_mask(tags: Seq<RetentionTag>) -> Seq<char> {
    Seq::new(6, |i: int| if tags.contains(all_tags()[i]) { acronym(all_tags()[i]) } else { '-' })
}

impl RetentionTag {
    /// Every retention tag, in display order.
    pub fn all() -> (r: Vec<RetentionTag>)
        ensures
            r@ == all_tags(),
    {
        let r = vec![
            RetentionTag::Untagged,
            RetentionTag::Hourly,
            RetentionTag::Daily,
            RetentionTag::Weekly,
            RetentionTag::Monthly,
            RetentionTag::Adhoc,
        ];
        assert(r@ =~= all_tags());
        r
    }

    pub fn as_char(self) -> (c: char)
        ensures
            c == acronym(self),
    {
        match self {
            Self::Untagged => 'u',
            Self::Hourly => 'h',
            Self::Daily => 'd',
            Self::Weekly => 'w',
            Self::Monthly => 'm',
            Self::Adhoc => 'a',
        }
    }

    pub fn as_str(self) -> (s: &'static str)
        ensures
            s@ == tag_name(self),
    {
        match self {
            Self::Untagged => "untagged",
            Self::Hourly => "hourly",
            Self::Daily => "daily",
            Self::Weekly => "weekly",
            Self::Monthly => "monthly",
            Self::Adhoc => "adhoc",
        }
    }

    /// The tag named by `value`, or `UnknownTag` carrying `value`.
    pub fn from_name(value: &str) -> (r: Result<RetentionTag, Error>)
        ensures
            match tag_from_name(value@) {
                Some(t) => r matches Ok(u) && u == t,
                None => r matches Err(Error::UnknownTag(s)) && s@ == value@,
            },
    {
        let cs = chars_of(value);
        if chars_eq(&cs, &chars_of("untagged")) {
            Ok(Self::Untagged)
        } else if chars_eq(&cs, &chars_of("hourly")) {
            Ok(Self::Hourly)
        } else if chars_eq(&cs, &chars_of("daily")) {
            Ok(Self::Daily)
        } else if chars_eq(&cs, &chars_of("weekly")) {
            Ok(Self::Weekly)
        } else if chars_eq(&cs, &chars_of("monthly")) {
            Ok(Self::Monthly)
        } else if chars_eq(&cs, &chars_of("adhoc")) {
            Ok(Self::Adhoc)
        } else {
            Err(Error::UnknownTag(value.to_owned()))
        }
    }

    /// The tag whose acronym is `value`, or `UnknownTag` carrying `value`.
    pub fn from_acronym(value: char) -> (r: Result<RetentionTag, Error>)
        ensures
            match tag_from_acronym(value) {
                Some(t) => r matches Ok(u) && u == t,
                None => r matches Err(Error::UnknownTag(s)) && s@ == seq![value],
            },
    {
        match value {
            'u' => Ok(Self::Untagged),
            'h' => Ok(Self::Hourly),
            'd' => Ok(Self::Daily),
            'w' => Ok(Self::Weekly),
            'm' => Ok(Self::Monthly),
            'a' => Ok(Self::Adhoc),
            _ => {
                let v = vec![value];
                Err(Error::UnknownTag(string_from_chars(&v)))
            },
        }
    }

    /// For each tag in display order, its acronym when `tags` holds it, `-` otherwise.
    pub fn get_tags_mask(tags: &[RetentionTag]) -> (r: String)
        ensures
            r@ == tags_mask(tags@),
    {
        let all = Self::all();
        let mut out: Vec<char> = Vec::new();
        let mut i: usize = 0;
        while i < all.len()
            invariant
                all@ == all_tags(),
                0 <= i <= 6,
                out@ == tags_mask(tags@).take(i as int),
            decreases 6 - i,
        {
            let t = all[i];
            let c = if slice_contains(tags, t) { t.as_char() } else { '-' };
            out.push(c);
            i = i + 1;
            assert(out@ =~= tags_mask(tags@).take(i as int));
        }
        assert(out@ =~= tags_mask(tags@));
        string_from_chars(&out)
    }
}

/// A copy of the tags.
pub fn copy_tags(tags: &[RetentionTag]) -> (r: Vec<RetentionTag>)
    ensures
        r@ == tags@,
{
    let mut r: Vec<RetentionTag> = Vec::new();
    let mut i: usize = 0;
    while i < tags.len()
        invariant
            0 <= i <= tags@.len(),
            r@ == tags@.take(i as int),
        decreases tags@.len() - i,
    {
        r.push(tags[i]);
        i = i + 1;
        assert(r@ =~= tags@.take(i as int));
    }
    assert(tags@.take(tags@.len() as int) =~= tags@);
    r
}

/// Whether `tags` holds `tag`.
pub fn slice_contains(tags: &[RetentionTag], tag: RetentionTag) -> (r: bool)
    ensures
        r == tags@.contains(tag),
{
    let mut i: usize = 0;
    while i < tags.len()
        invariant
            0 <= i <= tags@.len(),
            forall|j: int| 0 <= j < i ==> tags@[j] != tag,
        decreases tags@.len() - i,
    {
        if tags[i] == tag {
            assert(tags@[i as int] == tag);
            return true;
        }
        i = i + 1;
    }
    false
}

impl Default for RetentionTag {
    fn default() -> (r: Self)
        ensures
            r == RetentionTag::Untagged,
    {
        RetentionTag::Untagged
    }
}


/// A snapshot's timestamp and tags.
#[derive(Debug, PartialEq)]
pub struct SnapshotMetaData {
    timestamp: u64,
    tags: Vec<RetentionTag>,
}

/// The abstract value of a metadata entry: its timestamp and its tags.
pub type MetaView = (u64, Seq<RetentionTag>);

impl View for SnapshotMetaData {
    type V = MetaView;

    closed spec fn view(&self) -> MetaView {
        (self.timestamp, self.tags@)
    }
}

/// The views of a sequence of entries.
pub open spec fn metas_view(v: Seq<SnapshotMetaData>) -> Seq<MetaView> {
    v.map_values(|m: SnapshotMetaData| m@)
}

/// The tag names joined by commas.
pub open spec fn join_names(tags: Seq<RetentionTag>) -> Seq<char>
    decreases tags.len(),
{
    if tags.len() == 0 {
        Seq::empty()
    } else if tags.len() == 1 {
        tag_name(tags[0])
    } else {
        join_names(tags.drop_last()) + seq![','] + tag_name(tags.last())
    }
}

/// An entry without its terminating `;`: `<timestamp>:<names joined by commas>`.
pub open spec fn entry_body(e: MetaView) -> Seq<char> {
    decimal_digits(e.0 as nat) + seq![':'] + join_names(e.1)
}

/// How an entry is written: `<timestamp>:<names joined by commas>;`.
pub open spec fn entry_text(e: MetaView) -> Seq<char> {
    entry_body(e) + seq![';']
}

/// The metadata file holding the given entries, one per line.
pub open spec fn file_text(es: Seq<MetaView>) -> Seq<char>
    decreases es.len(),
{
    if es.len() == 0 {
        Seq::empty()
    } else {
        file_text(es.drop_last()) + entry_text(es.last()) + seq!['\n']
    }
}

/// Why an entry of the metadata file could not be read.
pub enum EntryFault {
    /// The timestamp is not an unsigned 64-bit decimal number.
    Timestamp,
    /// A tag name is unknown (the name is given).
    Tag(Seq<char>),
}

/// Whether an error reports the given fault.
pub open spec fn reports(e: Error, f: EntryFault) -> bool {
    match f {
        EntryFault::Timestamp => e is ParseInt,
        EntryFault::Tag(name) => e matches Error::UnknownTag(s) && s@ == name,
    }
}

/// The tags named by the pieces, or the first piece that names none.
pub open spec fn parse_tag_names(pieces: Seq<Seq<char>>) -> Result<Seq<RetentionTag>, Seq<char>>
    decreases pieces.len(),
{
    if pieces.len() == 0 {
        Ok(Seq::empty())
    } else {
        match parse_tag_names(pieces.drop_last()) {
            Err(bad) => Err(bad),
            Ok(ts) => match tag_from_name(pieces.last()) {
                Some(t) => Ok(ts.push(t)),
                None => Err(pieces.last()),
            },
        }
    }
}

/// How one piece of the file (the text between two `;`) reads: nothing when it is blank;
/// otherwise the timestamp before the last `:` and the comma-separated tag names after it;
/// without a `:`, the untrimmed piece as the timestamp and no tags.
pub open spec fn parse_entry(piece: Seq<char>) -> Option<Result<MetaView, EntryFault>> {
    let t = trim(piece);
    if t.len() == 0 {
        None
    } else {
        match rsplit_once(t, ':') {
            Some((head, tail)) => match parse_unsigned(head, u64::MAX as nat) {
                None => Some(Err(EntryFault::Timestamp)),
                Some(ts) => match parse_tag_names(split_on(tail, ',')) {
                    Err(bad) => Some(Err(EntryFault::Tag(bad))),
                    Ok(tags) => Some(Ok((ts as u64, tags))),
                },
            },
            None => match parse_unsigned(piece, u64::MAX as nat) {
                None => Some(Err(EntryFault::Timestamp)),
                Some(ts) => Some(Ok((ts as u64, Seq::empty()))),
            },
        }
    }
}

/// The entries of the pieces in order, or the fault of the first piece that fails.
pub open spec fn parse_entries(pieces: Seq<Seq<char>>) -> Result<Seq<MetaView>, EntryFault>
    decreases pieces.len(),
{
    if pieces.len() == 0 {
        Ok(Seq::empty())
    } else {
        match parse_entries(pieces.drop_last()) {
            Err(f) => Err(f),
            Ok(es) => match parse_entry(pieces.last()) {
                None => Ok(es),
                Some(Err(f)) => Err(f),
                Some(Ok(e)) => Ok(es.push(e)),
            },
        }
    }
}

/// The entries of a metadata file, in file order.
pub open spec fn metadata_entries(content: Seq<char>) -> Result<Seq<MetaView>, EntryFault> {
    parse_entries(split_on(content, ';'))
}

impl SnapshotMetaData {
    /// Metadata for a snapshot; refused when `tags` is empty.
    pub fn new(timestamp: u64, tags: Vec<RetentionTag>) -> (r: Result<Self, Error>)
        ensures
            tags@.len() == 0 ==> (r matches Err(Error::EmptyTag(s))
                && s@ == "Unable to create snapshot metadata with empty tag"@),
            tags@.len() > 0 ==> (r matches Ok(m) && m@ == (timestamp, tags@)),
    {
        if tags.len() == 0 {
            return Err(Error::EmptyTag("Unable to create snapshot metadata with empty tag".to_owned()));
        }
        Ok(Self { timestamp, tags })
    }

    pub fn timestamp(&self) -> (t: u64)
        ensures
            t == self@.0,
    {
        self.timestamp
    }

    pub fn tags(&self) -> (t: &[RetentionTag])
        ensures
            t@ == self@.1,
    {
        self.tags.as_slice()
    }

    pub fn contains_tag(&self, tag: &RetentionTag) -> (r: bool)
        ensures
            r == self@.1.contains(*tag),
    {
        slice_contains(self.tags.as_slice(), *tag)
    }

    /// The entry as written in the metadata file, without the line break.
    pub fn entry_text(&self) -> (r: String)
        ensures
            r@ == entry_text(self@),
    {
        let mut out: Vec<char> = Vec::new();
        self.push_entry(&mut out);
        string_from_chars(&out)
    }

    fn push_entry(&self, out: &mut Vec<char>)
        ensures
            final(out)@ == old(out)@ + entry_text(self@),
    {
        push_decimal(out, self.timestamp);
        out.push(':');
        let mut i: usize = 0;
        let ghost start = out@;
        while i < self.tags.len()
            invariant
                0 <= i <= self.tags@.len(),
                out@ == start + join_names(self.tags@.take(i as int)),
            decreases self.tags@.len() - i,
        {
            assert(self.tags@.take(i + 1).drop_last() =~= self.tags@.take(i as int));
            assert(self.tags@.take(i + 1).last() == self.tags@[i as int]);
            if i > 0 {
                out.push(',');
            } else {
                assert(self.tags@.take(1) =~= seq![self.tags@[0]]);
            }
            push_all(out, &chars_of(self.tags[i].as_str()));
            i = i + 1;
        }
        assert(self.tags@.take(self.tags@.len() as int) =~= self.tags@);
        out.push(';');
        assert(out@ =~= old(out)@ + entry_text(self@));
    }
}

/// The text of a metadata file holding the entries, one per line.
pub fn metadata_file_content(snapshots: &[SnapshotMetaData]) -> (r: String)
    ensures
        r@ == file_text(metas_view(snapshots@)),
{
    let mut out: Vec<char> = Vec::new();
    let mut i: usize = 0;
    while i < snapshots.len()
        invariant
            0 <= i <= snapshots@.len(),
            out@ == file_text(metas_view(snapshots@.take(i as int))),
        decreases snapshots@.len() - i,
    {
        assert(metas_view(snapshots@.take(i + 1)).drop_last() =~= metas_view(snapshots@.take(i as int)));
        snapshots[i].push_entry(&mut out);
        out.push('\n');
        i = i + 1;
    }
    assert(snapshots@.take(snapshots@.len() as int) =~= snapshots@);
    string_from_chars(&out)
}

/// The tags named by the comma-separated list, or `UnknownTag` for the first unknown name.
fn parse_tag_list(tail: &[char]) -> (r: Result<Vec<RetentionTag>, Error>)
    ensures
        match parse_tag_names(split_on(tail@, ',')) {
            Ok(ts) => r matches Ok(v) && v@ == ts,
            Err(bad) => r matches Err(Error::UnknownTag(s)) && s@ == bad,
        },
{
    let pieces = split_chars(tail, ',');
    let ghost ps = split_on(tail@, ',');
    let mut tags: Vec<RetentionTag> = Vec::new();
    let mut i: usize = 0;
    assert(ps.take(0) =~= Seq::<Seq<char>>::empty());
    while i < pieces.len()
        invariant
            ps == split_on(tail@, ','),
            pieces@.len() == ps.len(),
            forall|k: int| 0 <= k < ps.len() ==> #[trigger] pieces@[k]@ == ps[k],
            0 <= i <= ps.len(),
            parse_tag_names(ps.take(i as int)) == Ok::<Seq<RetentionTag>, Seq<char>>(tags@),
        decreases ps.len() - i,
    {
        assert(ps.take(i + 1).drop_last() =~= ps.take(i as int));
        assert(ps.take(i + 1).last() == ps[i as int]);
        let name = string_from_chars(pieces[i].as_slice());
        match RetentionTag::from_name(name.as_str()) {
            Ok(t) => tags.push(t),
            Err(e) => {
                assert(parse_tag_names(ps.take(i + 1)) == Err::<Seq<RetentionTag>, Seq<char>>(ps[i as int]));
                proof {
                    lemma_tag_names_fault_persists(ps, i + 1);
                }
                return Err(e);
            },
        }
        i = i + 1;
    }
    assert(ps.take(ps.len() as int) =~= ps);
    Ok(tags)
}

proof fn lemma_tag_names_fault_persists(ps: Seq<Seq<char>>, n: int)
    requires
        0 <= n <= ps.len(),
        parse_tag_names(ps.take(n)) is Err,
    ensures
        parse_tag_names(ps) == parse_tag_names(ps.take(n)),
    decreases ps.len() - n,
{
    if n < ps.len() {
        assert(ps.take(n + 1).drop_last() =~= ps.take(n));
        lemma_tag_names_fault_persists(ps, n + 1);
    } else {
        assert(ps.take(n) =~= ps);
    }
}

proof fn lemma_entries_fault_persists(ps: Seq<Seq<char>>, n: int)
    requires
        0 <= n <= ps.len(),
        parse_entries(ps.take(n)) is Err,
    ensures
        parse_entries(ps) == parse_entries(ps.take(n)),
    decreases ps.len() - n,
{
    if n < ps.len() {
        assert(ps.take(n + 1).drop_last() =~= ps.take(n));
        lemma_entries_fault_persists(ps, n + 1);
    } else {
        assert(ps.take(n) =~= ps);
    }
}

/// Reads one piece of the metadata file (the text between two `;`).
fn parse_piece(piece: &[char]) -> (r: Option<Result<SnapshotMetaData, Error>>)
    ensures
        match parse_entry(piece@) {
            None => r is None,
            Some(Ok(e)) => r matches Some(Ok(m)) && m@ == e,
            Some(Err(f)) => r matches Some(Err(err)) && reports(err, f),
        },
{
    let trimmed = trim_chars(piece);
    if trimmed.len() == 0 {
        return None;
    }
    proof {
        crate::text::lemma_last_index_of(trimmed@, ':');
    }
    match find_last(&trimmed, ':') {
        Some(i) => {
            let head = slice_chars(&trimmed, 0, i);
            let tail = slice_chars(&trimmed, i + 1, trimmed.len());
            assert(head@ =~= trimmed@.take(i as int));
            assert(tail@ =~= trimmed@.skip(i + 1));
            let timestamp = match parse_u64_chars(&head) {
                Ok(t) => t,
                Err(e) => {
                    return Some(Err(Error::ParseInt(e)));
                },
            };
            match parse_tag_list(&tail) {
                Ok(tags) => Some(Ok(SnapshotMetaData { timestamp, tags })),
                Err(e) => Some(Err(e)),
            }
        },
        None => {
            match parse_u64_chars(piece) {
                Ok(timestamp) => Some(Ok(SnapshotMetaData { timestamp, tags: Vec::new() })),
                Err(e) => Some(Err(Error::ParseInt(e))),
            }
        },
    }
}

/// The entries of a metadata file in file order, or the error of the first entry that fails.
pub fn parse_metadata_in_file_order(file_content: &str) -> (r: Result<Vec<SnapshotMetaData>, Error>)
    ensures
        match metadata_entries(file_content@) {
            Ok(es) => r matches Ok(v) && metas_view(v@) == es,
            Err(f) => r matches Err(e) && reports(e, f),
        },
{
    let content = chars_of(file_content);
    let pieces = split_chars(&content, ';');
    let ghost ps = split_on(file_content@, ';');
    let mut out: Vec<SnapshotMetaData> = Vec::new();
    let mut i: usize = 0;
    assert(ps.take(0) =~= Seq::<Seq<char>>::empty());
    assert(metas_view(out@) =~= Seq::<MetaView>::empty());
    while i < pieces.len()
        invariant
            ps == split_on(file_content@, ';'),
            pieces@.len() == ps.len(),
            forall|k: int| 0 <= k < ps.len() ==> #[trigger] pieces@[k]@ == ps[k],
            0 <= i <= ps.len(),
            parse_entries(ps.take(i as int)) == Ok::<Seq<MetaView>, EntryFault>(metas_view(out@)),
        decreases ps.len() - i,
    {
        assert(ps.take(i + 1).drop_last() =~= ps.take(i as int));
        assert(ps.take(i + 1).last() == ps[i as int]);
        let ghost before = metas_view(out@);
        match parse_piece(pieces[i].as_slice()) {
            None => {
                assert(parse_entries(ps.take(i + 1)) == Ok::<Seq<MetaView>, EntryFault>(before));
            },
            Some(Ok(m)) => {
                let ghost mv = m@;
                out.push(m);
                assert(metas_view(out@) =~= before.push(mv));
                assert(parse_entries(ps.take(i + 1)) == Ok::<Seq<MetaView>, EntryFault>(before.push(mv)));
            },
            Some(Err(e)) => {
                assert(parse_entries(ps.take(i + 1)) is Err);
                proof {
                    lemma_entries_fault_persists(ps, i + 1);
                }
                return Err(e);
            },
        }
        i = i + 1;
    }
    assert(ps.take(ps.len() as int) =~= ps);
    Ok(out)
}

/// Entries sorted by timestamp, newest first.
pub open spec fn sorted_newest_first(es: Seq<MetaView>) -> bool {
    forall|i: int, j: int| 0 <= i < j < es.len() ==> es[i].0 >= es[j].0
}

/// The entries reordered newest first.
fn sort_newest_first(v: Vec<SnapshotMetaData>) -> (r: Vec<SnapshotMetaData>)
    ensures
        metas_view(r@).to_multiset() == metas_view(v@).to_multiset(),
        sorted_newest_first(metas_view(r@)),
{
    broadcast use vstd::seq_lib::group_to_multiset_ensures;
    broadcast use vstd::multiset::group_multiset_axioms;
    let mut rest = v;
    let mut sorted: Vec<SnapshotMetaData> = Vec::new();
    assert(metas_view(sorted@) =~= Seq::<MetaView>::empty());
    while rest.len() > 0
        invariant
            metas_view(sorted@).to_multiset().add(metas_view(rest@).to_multiset())
                == metas_view(v@).to_multiset(),
            sorted_newest_first(metas_view(sorted@)),
        decreases rest@.len(),
    {
        let ghost before_rest = rest@;
        let ghost before_sorted = sorted@;
        let x = rest.pop().unwrap();
        assert(metas_view(before_rest) =~= metas_view(rest@).push(x@));
        let mut p: usize = 0;
        while p < sorted.len() && sorted[p].timestamp > x.timestamp
            invariant
                0 <= p <= sorted@.len(),
                sorted@ == before_sorted,
                forall|k: int| 0 <= k < p ==> sorted@[k]@.0 > x@.0,
            decreases sorted@.len() - p,
        {
            p = p + 1;
        }
        let ghost a = metas_view(before_sorted);
        assert(p < a.len() ==> a[p as int].0 <= x@.0);
        sorted.insert(p, x);
        proof {
            let s = metas_view(sorted@);
            let l = a.take(p as int);
            let rr = a.skip(p as int);
            assert(s =~= l.push(x@) + rr);
            assert(a =~= l + rr);
            vstd::seq_lib::lemma_multiset_commutative(l.push(x@), rr);
            vstd::seq_lib::lemma_multiset_commutative(l, rr);
            vstd::seq_lib::to_multiset_build(l, x@);
            vstd::seq_lib::to_multiset_build(metas_view(rest@), x@);
            assert(metas_view(before_rest).to_multiset() =~= metas_view(rest@).to_multiset().insert(x@));
            assert(s.to_multiset().add(metas_view(rest@).to_multiset()) =~= a.to_multiset().add(
                metas_view(before_rest).to_multiset(),
            ));
            assert forall|i: int, j: int| 0 <= i < j < s.len() implies s[i].0 >= s[j].0 by {
                if j < p {
                    assert(s[i] == a[i] && s[j] == a[j]);
                } else if j == p {
                    assert(s[i] == a[i]);
                    assert(s[j] == x@);
                } else if i < p {
                    assert(s[j] == a[j - 1]);
                    assert(s[i] == a[i]);
                } else if i == p {
                    assert(s[i] == x@);
                    assert(s[j] == a[j - 1]);
                } else {
                    assert(s[j] == a[j - 1]);
                    assert(s[i] == a[i - 1]);
                }
            }
        }
    }
    assert(metas_view(rest@) =~= Seq::<MetaView>::empty());
    sorted
}

/// The entries of a metadata file, newest first.
pub fn parse_metadata_as_ordered_vec(file_content: &str) -> (r: Result<Vec<SnapshotMetaData>, Error>)
    ensures
        match metadata_entries(file_content@) {
            Ok(es) => r matches Ok(v) && metas_view(v@).to_multiset() == es.to_multiset()
                && sorted_newest_first(metas_view(v@)),
            Err(f) => r matches Err(e) && reports(e, f),
        },
{
    let snapshots = parse_metadata_in_file_order(file_content)?;
    Ok(sort_newest_first(snapshots))
}

/// The tags of each timestamp in the entries; a later entry for a timestamp replaces an earlier one.
pub open spec fn tags_by_timestamp(es: Seq<MetaView>) -> Map<u64, Seq<RetentionTag>>
    decreases es.len(),
{
    if es.len() == 0 {
        Map::empty()
    } else {
        tags_by_timestamp(es.drop_last()).insert(es.last().0, es.last().1)
    }
}

/// Whether a map from timestamps to tag lists holds exactly the given tags.
pub open spec fn holds_tags(m: Map<u64, Vec<RetentionTag>>, tags: Map<u64, Seq<RetentionTag>>) -> bool {
    &&& m.dom() == tags.dom()
    &&& forall|k: u64| #[trigger] m.contains_key(k) ==> m[k]@ == tags[k]
}

/// The tags of each snapshot of a metadata file, by timestamp.
pub fn parse_metadata_as_hashmap(file_content: &str) -> (r: Result<HashMap<u64, Vec<RetentionTag>>, Error>)
    ensures
        match metadata_entries(file_content@) {
            Ok(es) => r matches Ok(m) && holds_tags(m@, tags_by_timestamp(es)),
            Err(f) => r matches Err(e) && reports(e, f),
        },
{
    let snapshots = parse_metadata_in_file_order(file_content)?;
    let ghost es = metas_view(snapshots@);
    let mut map: HashMap<u64, Vec<RetentionTag>> = HashMap::new();
    let mut i: usize = 0;
    while i < snapshots.len()
        invariant
            es == metas_view(snapshots@),
            0 <= i <= snapshots@.len(),
            holds_tags(map@, tags_by_timestamp(es.take(i as int))),
        decreases snapshots@.len() - i,
    {
        assert(es.take(i + 1).drop_last() =~= es.take(i as int));
        assert(es.take(i + 1).last() == es[i as int]);
        let timestamp = snapshots[i].timestamp();
        let tags = copy_tags(snapshots[i].tags());
        map.insert(timestamp, tags);
        i = i + 1;
        assert(map@.dom() =~= tags_by_timestamp(es.take(i as int)).dom());
    }
    assert(es.take(es.len() as int) =~= es);
    Ok(map)
}


/// The tags a snapshot directory is recorded with: those of the metadata when it has an
/// entry for the snapshot, `untagged` otherwise.
pub open spec fn recorded_tags(metadata: Map<u64, Vec<RetentionTag>>, snapshot: u64) -> Seq<RetentionTag> {
    if metadata.contains_key(snapshot) {
        metadata[snapshot]@
    } else {
        seq![RetentionTag::Untagged]
    }
}

/// Metadata for each snapshot directory, in the order given, with the tags the metadata
/// holds for it (`untagged` when it holds none). Refused with `EmptyTag` when the
/// metadata records an empty tag list for one of the snapshots.
pub fn metadata_for_snapshots(snapshots: &[u64], metadata: &HashMap<u64, Vec<RetentionTag>>) -> (r: Result<
    Vec<SnapshotMetaData>,
    Error,
>)
    ensures
        (forall|i: int| 0 <= i < snapshots@.len() ==> recorded_tags(metadata@, #[trigger] snapshots@[i]).len() > 0)
            ==> (r matches Ok(v) && metas_view(v@) == snapshots@.map_values(
            |s: u64| (s, recorded_tags(metadata@, s)),
        )),
        !(forall|i: int| 0 <= i < snapshots@.len() ==> recorded_tags(metadata@, #[trigger] snapshots@[i]).len() > 0)
            ==> (r matches Err(Error::EmptyTag(s)) && s@ == "Unable to create snapshot metadata with empty tag"@),
{
    let mut out: Vec<SnapshotMetaData> = Vec::new();
    let mut i: usize = 0;
    while i < snapshots.len()
        invariant
            0 <= i <= snapshots@.len(),
            forall|k: int| 0 <= k < i ==> recorded_tags(metadata@, #[trigger] snapshots@[k]).len() > 0,
            metas_view(out@) == snapshots@.take(i as int).map_values(|s: u64| (s, recorded_tags(metadata@, s))),
        decreases snapshots@.len() - i,
    {
        let s = snapshots[i];
        let tags = match metadata.get(&s) {
            Some(t) => copy_tags(t.as_slice()),
            None => vec![RetentionTag::Untagged],
        };
        assert(tags@ == recorded_tags(metadata@, s));
        let m = SnapshotMetaData::new(s, tags)?;
        let ghost mv = m@;
        let ghost before = metas_view(out@);
        assert(mv == (s, recorded_tags(metadata@, s)));
        out.push(m);
        assert(metas_view(out@) =~= before.push(mv));
        assert(snapshots@.take(i + 1) =~= snapshots@.take(i as int).push(s));
        i = i + 1;
        assert(metas_view(out@) =~= snapshots@.take(i as int).map_values(|s: u64| (s, recorded_tags(metadata@, s))));
    }
    assert(snapshots@.take(snapshots@.len() as int) =~= snapshots@);
    Ok(out)
}

/// Rebuilding the metadata from the snapshot directories gives one entry per snapshot, in
/// order: the snapshot's timestamp with exactly the tag list the metadata recorded for it,
/// or `untagged` alone when the metadata holds no entry for it.
pub proof fn lemma_rebuilt_metadata(
    snapshots: Seq<u64>,
    metadata: Map<u64, Vec<RetentionTag>>,
    rebuilt: Seq<MetaView>,
)
    requires
        rebuilt == snapshots.map_values(|s: u64| (s, recorded_tags(metadata, s))),
    ensures
        rebuilt.len() == snapshots.len(),
        forall|i: int| 0 <= i < snapshots.len() ==> (#[trigger] rebuilt[i]).0 == snapshots[i],
        forall|i: int|
            0 <= i < snapshots.len() && metadata.contains_key(snapshots[i]) ==> (#[trigger] rebuilt[i]).1
                == metadata[snapshots[i]]@,
        forall|i: int|
            0 <= i < snapshots.len() && !metadata.contains_key(snapshots[i]) ==> (#[trigger] rebuilt[i]).1 == seq![
                RetentionTag::Untagged,
            ],
{
}


// ---------------------------------------------------------------------------
// Reading back what was written
// ---------------------------------------------------------------------------

proof fn lemma_tag_name_facts(t: RetentionTag)
    ensures
        tag_name(t).len() > 0,
        !tag_name(t).contains(','),
        !tag_name(t).contains(':'),
        !tag_name(t).contains(';'),
        !is_white_space(tag_name(t).last()),
        tag_from_name(tag_name(t)) == Some(t),
{
    reveal_strlit("untagged");
    reveal_strlit("hourly");
    reveal_strlit("daily");
    reveal_strlit("weekly");
    reveal_strlit("monthly");
    reveal_strlit("adhoc");
    let n = tag_name(t);
    assert("untagged"@.len() == 8 && "hourly"@.len() == 6 && "daily"@.len() == 5);
    assert("weekly"@.len() == 6 && "monthly"@.len() == 7 && "adhoc"@.len() == 5);
    assert("hourly"@[0] != "weekly"@[0]);
    assert("daily"@[0] != "adhoc"@[0]);
    assert(!n.contains(',') && !n.contains(':') && !n.contains(';')) by {
        if n.contains(',') || n.contains(':') || n.contains(';') {
            let k = choose|k: int| 0 <= k < n.len() && (n[k] == ',' || n[k] == ':' || n[k] == ';');
            assert(false);
        }
    }
}

proof fn lemma_decimal_facts(v: nat)
    ensures
        decimal_digits(v).len() > 0,
        !decimal_digits(v).contains(':'),
        !decimal_digits(v).contains(';'),
        !is_white_space(decimal_digits(v)[0]),
{
    crate::text::lemma_decimal_digits(v);
    let d = decimal_digits(v);
    assert(!d.contains(':') && !d.contains(';')) by {
        if d.contains(':') || d.contains(';') {
            let k = choose|k: int| 0 <= k < d.len() && (d[k] == ':' || d[k] == ';');
            assert(crate::text::is_ascii_digit(d[k]));
        }
    }
    assert(crate::text::is_ascii_digit(d[0]));
}

/// Facts about a comma-joined list of tag names.
proof fn lemma_join_facts(ts: Seq<RetentionTag>)
    requires
        ts.len() > 0,
    ensures
        join_names(ts).len() > 0,
        !join_names(ts).contains(':'),
        !join_names(ts).contains(';'),
        !is_white_space(join_names(ts).last()),
        split_on(join_names(ts), ',') == ts.map_values(|t: RetentionTag| tag_name(t)),
    decreases ts.len(),
{
    lemma_tag_name_facts(ts.last());
    if ts.len() == 1 {
        crate::text::lemma_split_none(tag_name(ts[0]), ',');
        assert(ts.map_values(|t: RetentionTag| tag_name(t)) =~= seq![tag_name(ts[0])]);
    } else {
        let pre = ts.drop_last();
        lemma_join_facts(pre);
        let a = join_names(pre);
        let b = tag_name(ts.last());
        let j = join_names(ts);
        assert(j == a + seq![','] + b);
        assert(!j.contains(':') && !j.contains(';')) by {
            if j.contains(':') || j.contains(';') {
                let k = choose|k: int| 0 <= k < j.len() && (j[k] == ':' || j[k] == ';');
                if k < a.len() {
                    assert(a[k] == j[k]);
                } else if k > a.len() {
                    assert(b[k - a.len() - 1] == j[k]);
                }
            }
        }
        assert(j.last() == b.last());
        crate::text::lemma_split_concat(a, b, ',');
        crate::text::lemma_split_none(b, ',');
        assert(ts.map_values(|t: RetentionTag| tag_name(t)) =~= pre.map_values(|t: RetentionTag| tag_name(t)).push(b));
    }
}

/// The names of the tags read back as the tags.
proof fn lemma_parse_names(ts: Seq<RetentionTag>)
    ensures
        parse_tag_names(ts.map_values(|t: RetentionTag| tag_name(t))) == Ok::<Seq<RetentionTag>, Seq<char>>(ts),
    decreases ts.len(),
{
    let names = ts.map_values(|t: RetentionTag| tag_name(t));
    if ts.len() > 0 {
        lemma_parse_names(ts.drop_last());
        lemma_tag_name_facts(ts.last());
        assert(names.drop_last() =~= ts.drop_last().map_values(|t: RetentionTag| tag_name(t)));
        assert(names.last() == tag_name(ts.last()));
        assert(ts.drop_last().push(ts.last()) =~= ts);
        assert(names.len() > 0);
        assert(parse_tag_names(names.drop_last()) == Ok::<Seq<RetentionTag>, Seq<char>>(ts.drop_last()));
        assert(tag_from_name(names.last()) == Some(ts.last()));
    } else {
        assert(names =~= Seq::<Seq<char>>::empty());
        assert(ts =~= Seq::<RetentionTag>::empty());
    }
}

proof fn lemma_trim_body(prefix: Seq<char>, d: Seq<char>)
    requires
        prefix == Seq::<char>::empty() || prefix == seq!['\n'],
        d.len() > 0,
        !is_white_space(d[0]),
        !is_white_space(d.last()),
    ensures
        trim(prefix + d) == d,
{
    if prefix.len() == 1 {
        assert((prefix + d).drop_first() =~= d);
        assert(is_white_space((prefix + d)[0]));
    } else {
        assert(prefix + d =~= d);
    }
    assert(crate::text::trim_start(d) == d);
    assert(crate::text::trim_start(prefix + d) == d);
    assert(crate::text::trim_end(d) == d);
}

/// An entry written after an optional line break reads back as that entry.
#[verifier::rlimit(40)]
proof fn lemma_parse_written_entry(prefix: Seq<char>, e: MetaView)
    requires
        prefix == Seq::<char>::empty() || prefix == seq!['\n'],
        e.1.len() > 0,
    ensures
        parse_entry(prefix + entry_body(e)) == Some(Ok::<MetaView, EntryFault>(e)),
{
    let dec = decimal_digits(e.0 as nat);
    let j = join_names(e.1);
    let d = entry_body(e);
    lemma_decimal_facts(e.0 as nat);
    lemma_join_facts(e.1);
    assert(d[0] == dec[0]);
    assert(d.last() == j.last());
    lemma_trim_body(prefix, d);
    crate::text::lemma_last_index_after(dec, j, ':');
    assert(d.take(dec.len() as int) =~= dec);
    assert(d.skip(dec.len() as int + 1) =~= j);
    crate::text::lemma_parse_decimal(e.0 as nat, u64::MAX as nat);
    lemma_parse_names(e.1);
    assert(trim(prefix + d) == d);
    assert(rsplit_once(d, ':') == Some((dec, j)));
    assert(parse_unsigned(dec, u64::MAX as nat) == Some(e.0 as nat));
    assert(parse_tag_names(split_on(j, ',')) == Ok::<Seq<RetentionTag>, Seq<char>>(e.1));
}

/// Splitting after appending text without the separator extends the last piece.
proof fn lemma_split_append(x: Seq<char>, d: Seq<char>, sep: char)
    requires
        !d.contains(sep),
    ensures
        split_on(x + d, sep) == split_on(x, sep).update(
            split_on(x, sep).len() - 1,
            split_on(x, sep).last() + d,
        ),
    decreases d.len(),
{
    crate::text::lemma_split_len(x, sep);
    if d.len() == 0 {
        assert(x + d =~= x);
        assert(split_on(x, sep).last() + d =~= split_on(x, sep).last());
        assert(split_on(x, sep).update(split_on(x, sep).len() - 1, split_on(x, sep).last()) =~= split_on(x, sep));
    } else {
        assert(!d.drop_last().contains(sep)) by {
            if d.drop_last().contains(sep) {
                let k = choose|k: int| 0 <= k < d.drop_last().len() && d.drop_last()[k] == sep;
                assert(d[k] == sep);
            }
        }
        lemma_split_append(x, d.drop_last(), sep);
        assert((x + d).drop_last() =~= x + d.drop_last());
        assert((x + d).last() == d.last());
        assert(d.last() != sep) by {
            assert(d[d.len() - 1] == d.last());
        }
        let p = split_on(x, sep);
        let prev = split_on(x + d.drop_last(), sep);
        assert(prev.len() == p.len());
        assert(prev.last() == p.last() + d.drop_last());
        assert((p.last() + d.drop_last()).push(d.last()) =~= p.last() + d);
        assert(p.update(p.len() - 1, p.last() + d.drop_last()).update(p.len() - 1, (p.last() + d.drop_last()).push(d.last()))
            =~= p.update(p.len() - 1, p.last() + d));
    }
}

/// The text before an entry: nothing for the first, a line break for the others.
pub open spec fn entry_prefix(n: nat) -> Seq<char> {
    if n == 0 { Seq::empty() } else { seq!['\n'] }
}

/// The pieces between `;` that hold the entries of a written file.
pub open spec fn entry_pieces(es: Seq<MetaView>) -> Seq<Seq<char>>
    decreases es.len(),
{
    if es.len() == 0 {
        Seq::empty()
    } else {
        entry_pieces(es.drop_last()).push(entry_prefix((es.len() - 1) as nat) + entry_body(es.last()))
    }
}

proof fn lemma_split_file(es: Seq<MetaView>)
    requires
        forall|i: int| 0 <= i < es.len() ==> (#[trigger] es[i]).1.len() > 0,
    ensures
        split_on(file_text(es), ';') == entry_pieces(es).push(entry_prefix(es.len())),
    decreases es.len(),
{
    if es.len() == 0 {
        assert(split_on(file_text(es), ';') =~= seq![Seq::<char>::empty()]);
    } else {
        let pre = es.drop_last();
        let e = es.last();
        assert forall|i: int| 0 <= i < pre.len() implies (#[trigger] pre[i]).1.len() > 0 by {
            assert(pre[i] == es[i]);
        }
        lemma_split_file(pre);
        let d = entry_body(e);
        lemma_decimal_facts(e.0 as nat);
        lemma_join_facts(e.1);
        assert(!d.contains(';')) by {
            let dec = decimal_digits(e.0 as nat);
            let j = join_names(e.1);
            if d.contains(';') {
                let k = choose|k: int| 0 <= k < d.len() && d[k] == ';';
                if k < dec.len() {
                    assert(dec[k] == d[k]);
                } else if k > dec.len() {
                    assert(j[k - dec.len() - 1] == d[k]);
                }
            }
        }
        let x = file_text(pre);
        assert(file_text(es) =~= (x + d) + seq![';'] + seq!['\n']);
        crate::text::lemma_split_concat(x + d, seq!['\n'], ';');
        lemma_split_append(x, d, ';');
        crate::text::lemma_split_none(seq!['\n'], ';');
        assert(entry_prefix(pre.len()) + d == entry_prefix((es.len() - 1) as nat) + entry_body(es.last()));
        assert(split_on(file_text(es), ';') =~= entry_pieces(es).push(entry_prefix(es.len())));
    }
}

proof fn lemma_parse_entry_pieces(es: Seq<MetaView>)
    requires
        forall|i: int| 0 <= i < es.len() ==> (#[trigger] es[i]).1.len() > 0,
    ensures
        parse_entries(entry_pieces(es)) == Ok::<Seq<MetaView>, EntryFault>(es),
    decreases es.len(),
{
    if es.len() == 0 {
        assert(es =~= Seq::<MetaView>::empty());
    } else {
        let pre = es.drop_last();
        assert forall|i: int| 0 <= i < pre.len() implies (#[trigger] pre[i]).1.len() > 0 by {
            assert(pre[i] == es[i]);
        }
        lemma_parse_entry_pieces(pre);
        assert(es[es.len() - 1] == es.last());
        lemma_parse_written_entry(entry_prefix((es.len() - 1) as nat), es.last());
        assert(entry_pieces(es).drop_last() =~= entry_pieces(pre));
        assert(pre.push(es.last()) =~= es);
    }
}

/// Reading back a written metadata file gives the entries that were written, in order,
/// provided every entry has at least one tag.
pub proof fn lemma_metadata_roundtrip(es: Seq<MetaView>)
    requires
        forall|i: int| 0 <= i < es.len() ==> (#[trigger] es[i]).1.len() > 0,
    ensures
        metadata_entries(file_text(es)) == Ok::<Seq<MetaView>, EntryFault>(es),
{
    lemma_split_file(es);
    lemma_parse_entry_pieces(es);
    let last = entry_prefix(es.len());
    assert(trim(last) =~= Seq::<char>::empty()) by {
        let e = Seq::<char>::empty();
        assert(crate::text::trim_start(e) == e);
        assert(crate::text::trim_end(e) == e);
        if es.len() > 0 {
            assert(is_white_space(last[0]));
            assert(last.drop_first() =~= e);
            assert(crate::text::trim_start(last) == e);
        } else {
            assert(last == e);
        }
    }
    assert(entry_pieces(es).push(last).drop_last() =~= entry_pieces(es));
}

} // verus!
