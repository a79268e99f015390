//! The tag carried in a snapshot directory name.
use vstd::prelude::*;

use crate::error::Error;
use crate::text::{chars_of, string_from_chars};

verus! {

#[derive(Debug, Clone, Copy, PartialEq, Eq, Structural)]
pub enum SnapshotTag {
    Untagged,
    Hourly,
    Daily,
    Weekly,
    Adhoc(char),
}

/// Whether std's `char::is_alphanumeric` holds for `c` (Unicode Alphabetic or Numeric),
/// for characters outside ASCII.
pub uninterp spec fn char_is_alphanumeric(c: char) -> bool;

/// Whether a character is alphanumeric: in ASCII the letters and digits, outside ASCII
/// what the Unicode tables say.
pub open spec fn alphanumeric(c: char) -> bool {
    if (c as u32) < 128 {
        ('a' <= c && c <= 'z') || ('A' <= c && c <= 'Z') || ('0' <= c && c <= '9')
    } else {
        char_is_alphanumeric(c)
    }
}

/// std's `char::is_alphanumeric`: alphabetic or numeric.
/// Trusted: within ASCII exactly the letters and digits; outside ASCII the result is
/// `char_is_alphanumeric(c)`, of which nothing more is stated.
#[verifier::external_body]
pub(crate) fn is_alphanumeric(c: char) -> (r: bool)
    ensures
        (c as u32) < 128 ==> r == (('a' <= c && c <= 'z') || ('A' <= c && c <= 'Z') || ('0' <= c && c <= '9')),
        (c as u32) >= 128 ==> r == char_is_alphanumeric(c),
{
    c.is_alphanumeric()
}

/// How a tag is written: its letter, and for an ad hoc tag the letter `a` followed by its character.
pub open spec fn tag_label(t: SnapshotTag) -> Seq<char> {
    match t {
        SnapshotTag::Untagged => seq!['u'],
        SnapshotTag::Hourly => seq!['h'],
        SnapshotTag::Daily => seq!['d'],
        SnapshotTag::Weekly => seq!['w'],
        SnapshotTag::Adhoc(c) => seq!['a', c],
    }
}

/// The five-character mask of a tag: its letter at its own position, `-` elsewhere.
pub open spec fn tag_mask(t: SnapshotTag) -> Seq<char> {
    match t {
        SnapshotTag::Untagged => "u----"@,
        SnapshotTag::Hourly => "-h---"@,
        SnapshotTag::Daily => "--d--"@,
        SnapshotTag::Weekly => "---w-"@,
        SnapshotTag::Adhoc(_) => "----a"@,
    }
}

/// Why a text is not a tag.
pub enum TagFault {
    Empty,
    Unknown,
}

/// How a text reads as a tag: one of the letters `u`, `h`, `d`, `w` alone, or `a`
/// followed by exactly one alphanumeric character.
pub open spec fn parse_tag(s: Seq<char>) -> Result<SnapshotTag, TagFault> {
    if s.len() == 0 {
        Err(TagFault::Empty)
    } else if s.len() == 1 && s[0] == 'u' {
        Ok(SnapshotTag::Untagged)
    } else if s.len() == 1 && s[0] == 'h' {
        Ok(SnapshotTag::Hourly)
    } else if s.len() == 1 && s[0] == 'd' {
        Ok(SnapshotTag::Daily)
    } else if s.len() == 1 && s[0] == 'w' {
        Ok(SnapshotTag::Weekly)
    } else if s.len() == 2 && s[0] == 'a' && alphanumeric(s[1]) {
        Ok(SnapshotTag::Adhoc(s[1]))
    } else {
        Err(TagFault::Unknown)
    }
}

/// The message of the error for an empty tag.
pub open spec fn empty_tag_message() -> Seq<char> {
    "Unable to parse an empty snapshot tag"@
}

/// Whether an error reports the given fault of the text `s`.
pub open spec fn reports_tag_fault(e: Error, f: TagFault, s: Seq<char>) -> bool {
    match f {
        TagFault::Empty => e matches Error::EmptyTag(m) && m@ == empty_tag_message(),
        TagFault::Unknown => e matches Error::UnknownTag(m) && m@ == s,
    }
}

/// Whether a tag is one that `parse_tag` can produce.
pub open spec fn is_valid_tag(t: SnapshotTag) -> bool {
    t matches SnapshotTag::Adhoc(c) ==> alphanumeric(c)
}

impl Default for SnapshotTag {
    fn default() -> (r: Self)
        ensures
            r == SnapshotTag::Untagged,
    {
        Self::Untagged
    }
}

impl SnapshotTag {
    /// The tag as written in a snapshot name.
    pub fn label(&self) -> (r: String)
        ensures
            r@ == tag_label(*self),
    {
        let v: Vec<char> = match self {
            Self::Untagged => vec!['u'],
            Self::Hourly => vec!['h'],
            Self::Daily => vec!['d'],
            Self::Weekly => vec!['w'],
            Self::Adhoc(c) => vec!['a', *c],
        };
        assert(v@ =~= tag_label(*self));
        string_from_chars(&v)
    }

    pub fn get_tag_mask(&self) -> (r: String)
        ensures
            r@ == tag_mask(*self),
    {
        let mask = match self {
            Self::Untagged => "u----",
            Self::Hourly => "-h---",
            Self::Daily => "--d--",
            Self::Weekly => "---w-",
            Self::Adhoc(_) => "----a",
        };
        mask.to_owned()
    }

    /// Reads a tag; `EmptyTag` for an empty text, `UnknownTag` with the text for any other
    /// text that is not a tag.
    pub fn parse(value: &str) -> (r: Result<SnapshotTag, Error>)
        ensures
            match parse_tag(value@) {
                Ok(t) => r matches Ok(u) && u == t,
                Err(f) => r matches Err(e) && reports_tag_fault(e, f, value@),
            },
    {
        let cs = chars_of(value);
        if cs.len() == 0 {
            return Err(Error::EmptyTag("Unable to parse an empty snapshot tag".to_owned()));
        }
        if cs.len() == 1 {
            if cs[0] == 'u' {
                return Ok(Self::Untagged);
            } else if cs[0] == 'h' {
                return Ok(Self::Hourly);
            } else if cs[0] == 'd' {
                return Ok(Self::Daily);
            } else if cs[0] == 'w' {
                return Ok(Self::Weekly);
            }
        }
        if cs.len() == 2 && cs[0] == 'a' && is_alphanumeric(cs[1]) {
            return Ok(Self::Adhoc(cs[1]));
        }
        Err(Error::UnknownTag(value.to_owned()))
    }
}

/// A written tag reads back as the same tag.
pub proof fn lemma_tag_roundtrip(t: SnapshotTag)
    requires
        is_valid_tag(t),
    ensures
        parse_tag(tag_label(t)) == Ok::<SnapshotTag, TagFault>(t),
{
    let l = tag_label(t);
    assert(l.len() >= 1);
}

} // verus!
