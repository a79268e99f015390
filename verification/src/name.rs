//! Snapshot directory names: `<timestamp>_<tag>`.
use vstd::prelude::*;

use crate::error::Error;
use crate::tags::{is_valid_tag, parse_tag, reports_tag_fault, tag_label, SnapshotTag, TagFault};
use crate::text::{
    chars_of, decimal_digits, find_last, parse_u64_chars, parse_unsigned, push_all, push_decimal,
    rsplit_once, slice_chars, string_from_chars,
};

verus! {

#[derive(Debug, Clone, Copy)]
pub struct SnapshotName {
    timestamp: u64,
    tag: Option<SnapshotTag>,
}

impl View for SnapshotName {
    type V = (u64, Option<SnapshotTag>);

    closed spec fn view(&self) -> (u64, Option<SnapshotTag>) {
        (self.timestamp, self.tag)
    }
}

/// The tag a name is written with: its own, or `Untagged` when it has none.
pub open spec fn written_tag(tag: Option<SnapshotTag>) -> SnapshotTag {
    match tag {
        Some(t) => t,
        None => SnapshotTag::Untagged,
    }
}

/// How a name is written: `<timestamp>_<tag>`.
pub open spec fn name_text(n: (u64, Option<SnapshotTag>)) -> Seq<char> {
    decimal_digits(n.0 as nat) + seq!['_'] + tag_label(written_tag(n.1))
}

/// Why a text is not a snapshot name.
pub enum NameFault {
    /// The text after the last `_` is not a tag.
    Tag(TagFault, Seq<char>),
    /// The timestamp is not an unsigned 64-bit decimal number.
    Timestamp,
}

/// How a text reads as a snapshot name: the tag after the last `_` (read first) and the
/// timestamp before it; without `_`, the whole text as the timestamp and no tag.
pub open spec fn parse_name(s: Seq<char>) -> Result<(u64, Option<SnapshotTag>), NameFault> {
    match rsplit_once(s, '_') {
        Some((ts, tg)) => match parse_tag(tg) {
            Err(f) => Err(NameFault::Tag(f, tg)),
            Ok(t) => match parse_unsigned(ts, u64::MAX as nat) {
                None => Err(NameFault::Timestamp),
                Some(v) => Ok((v as u64, Some(t))),
            },
        },
        None => match parse_unsigned(s, u64::MAX as nat) {
            None => Err(NameFault::Timestamp),
            Some(v) => Ok((v as u64, None)),
        },
    }
}

/// Whether an error reports the given fault.
pub open spec fn reports_name_fault(e: Error, f: NameFault) -> bool {
    match f {
        NameFault::Tag(tf, text) => reports_tag_fault(e, tf, text),
        NameFault::Timestamp => e is ParseInt,
    }
}

impl SnapshotName {
    pub fn new(timestamp: u64, tag: Option<SnapshotTag>) -> (r: Self)
        ensures
            r@ == (timestamp, tag),
    {
        Self { timestamp, tag }
    }

    pub fn timestamp(&self) -> (t: u64)
        ensures
            t == self@.0,
    {
        self.timestamp
    }

    pub fn tag(&self) -> (t: Option<SnapshotTag>)
        ensures
            t == self@.1,
    {
        self.tag
    }

    /// The name as written: `<timestamp>_<tag>`.
    pub fn to_text(&self) -> (r: String)
        ensures
            r@ == name_text(self@),
    {
        let mut out: Vec<char> = Vec::new();
        push_decimal(&mut out, self.timestamp);
        out.push('_');
        let tag = match self.tag {
            Some(t) => t,
            None => SnapshotTag::default(),
        };
        push_all(&mut out, &chars_of(tag.label().as_str()));
        assert(out@ =~= name_text(self@));
        string_from_chars(&out)
    }

    /// Reads a snapshot name.
    pub fn from_str(s: &str) -> (r: Result<Self, Error>)
        ensures
            match parse_name(s@) {
                Ok(n) => r matches Ok(m) && m@ == n,
                Err(f) => r matches Err(e) && reports_name_fault(e, f),
            },
    {
        let cs = chars_of(s);
        proof {
            crate::text::lemma_last_index_of(cs@, '_');
        }
        match find_last(&cs, '_') {
            Some(i) => {
                let ts_str = slice_chars(&cs, 0, i);
                let tag_str = slice_chars(&cs, i + 1, cs.len());
                assert(ts_str@ =~= cs@.take(i as int));
                assert(tag_str@ =~= cs@.skip(i + 1));
                let tag_text = string_from_chars(&tag_str);
                let tag = SnapshotTag::parse(tag_text.as_str())?;
                let timestamp = match parse_u64_chars(&ts_str) {
                    Ok(t) => t,
                    Err(e) => {
                        return Err(Error::ParseInt(e));
                    },
                };
                Ok(Self { timestamp, tag: Some(tag) })
            },
            None => {
                let timestamp = match parse_u64_chars(&cs) {
                    Ok(t) => t,
                    Err(e) => {
                        return Err(Error::ParseInt(e));
                    },
                };
                Ok(Self { timestamp, tag: None })
            },
        }
    }
}

/// A written snapshot name reads back as its timestamp and the tag it was written with,
/// for tags that can be read (an ad hoc tag's character is alphanumeric).
pub proof fn lemma_name_roundtrip(n: (u64, Option<SnapshotTag>))
    requires
        is_valid_tag(written_tag(n.1)),
    ensures
        parse_name(name_text(n)) == Ok::<(u64, Option<SnapshotTag>), NameFault>((n.0, Some(written_tag(n.1)))),
{
    let d = decimal_digits(n.0 as nat);
    let l = tag_label(written_tag(n.1));
    crate::text::lemma_decimal_digits(n.0 as nat);
    crate::tags::lemma_tag_roundtrip(written_tag(n.1));
    assert(!l.contains('_')) by {
        if l.contains('_') {
            let k = choose|k: int| 0 <= k < l.len() && l[k] == '_';
        }
    }
    crate::text::lemma_last_index_after(d, l, '_');
    let t = name_text(n);
    assert(t.take(d.len() as int) =~= d);
    assert(t.skip(d.len() as int + 1) =~= l);
    crate::text::lemma_parse_decimal(n.0 as nat, u64::MAX as nat);
}

} // verus!
