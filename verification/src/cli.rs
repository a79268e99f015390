//! Command-line arguments: which command to run and with which options.
use vstd::prelude::*;

use crate::error::Error;
use crate::meta::{tag_from_acronym, RetentionTag};
use crate::text::{
    chars_eq, chars_of, parse_unsigned, parse_usize_chars, push_all, split_chars, split_on,
    string_from_chars,
};

verus! {

/// A command and its options.
#[derive(Debug)]
pub enum Command {
    Take { tag: Option<RetentionTag> },
    List { size: bool, indexes: Option<Vec<usize>>, acronyms: Option<Vec<RetentionTag>> },
    Restore { id: usize },
    Remove { indexes: Option<Vec<usize>>, acronyms: Option<Vec<RetentionTag>>, force: bool },
    CheckHealth { dump: bool },
    Help,
    Version,
}

/// The abstract value of a command.
pub enum CommandView {
    Take(Option<RetentionTag>),
    List(bool, Option<Seq<usize>>, Option<Seq<RetentionTag>>),
    Restore(usize),
    Remove(Option<Seq<usize>>, Option<Seq<RetentionTag>>, bool),
    CheckHealth(bool),
    Help,
    Version,
}

pub open spec fn opt_view<T>(v: Option<Vec<T>>) -> Option<Seq<T>> {
    match v {
        Some(v) => Some(v@),
        None => None,
    }
}

impl View for Command {
    type V = CommandView;

    open spec fn view(&self) -> CommandView {
        match self {
            Command::Take { tag } => CommandView::Take(*tag),
            Command::List { size, indexes, acronyms } => CommandView::List(*size, opt_view(*indexes), opt_view(*acronyms)),
            Command::Restore { id } => CommandView::Restore(*id),
            Command::Remove { indexes, acronyms, force } => CommandView::Remove(opt_view(*indexes), opt_view(*acronyms), *force),
            Command::CheckHealth { dump } => CommandView::CheckHealth(*dump),
            Command::Help => CommandView::Help,
            Command::Version => CommandView::Version,
        }
    }
}

/// Why the arguments were refused.
pub enum ArgFault {
    /// A number could not be read.
    Number,
    /// An acronym is unknown (the text is given).
    Tag(Seq<char>),
}

/// Whether an error reports the given fault.
pub open spec fn reports_arg_fault(e: Error, f: ArgFault) -> bool {
    match f {
        ArgFault::Number => e is ParseInt,
        ArgFault::Tag(s) => e matches Error::UnknownTag(m) && m@ == s,
    }
}

/// What reading a list of items or arguments comes to: a value, a refusal, or a halt of
/// the program (the inputs that the program stops on).
pub enum Outcome<T> {
    Value(T),
    Fault(ArgFault),
    Halt,
}

// ---------------------------------------------------------------------------
// Index lists: `1`, `1,3,4`, `1-21`
// ---------------------------------------------------------------------------

/// The indexes from `start` to `end`, both included.
pub open spec fn index_range(start: nat, end: nat) -> Seq<usize> {
    Seq::new((end - start + 1) as nat, |k: int| (start + k) as usize)
}

/// How one comma-separated item reads: `a-b` (with `a < b`, else the program halts) is the
/// indexes from `a` to `b`; any other item is a single index.
pub open spec fn item_outcome(item: Seq<char>) -> Outcome<Seq<usize>> {
    let parts = split_on(item, '-');
    if parts.len() == 2 {
        match parse_unsigned(parts[0], usize::MAX as nat) {
            None => Outcome::Fault(ArgFault::Number),
            Some(start) => match parse_unsigned(parts[1], usize::MAX as nat) {
                None => Outcome::Fault(ArgFault::Number),
                Some(end) => if start < end {
                    Outcome::Value(index_range(start, end))
                } else {
                    Outcome::Halt
                },
            },
        }
    } else {
        match parse_unsigned(item, usize::MAX as nat) {
            None => Outcome::Fault(ArgFault::Number),
            Some(v) => Outcome::Value(seq![v as usize]),
        }
    }
}

/// The items read in order and concatenated; the first item that fails decides.
pub open spec fn items_outcome(items: Seq<Seq<char>>) -> Outcome<Seq<usize>>
    decreases items.len(),
{
    if items.len() == 0 {
        Outcome::Value(Seq::empty())
    } else {
        match items_outcome(items.drop_last()) {
            Outcome::Value(vs) => match item_outcome(items.last()) {
                Outcome::Value(ws) => Outcome::Value(vs + ws),
                Outcome::Fault(f) => Outcome::Fault(f),
                Outcome::Halt => Outcome::Halt,
            },
            other => other,
        }
    }
}

/// How an optional index list reads: none at all is the empty list.
pub open spec fn index_list_outcome(values: Option<Seq<char>>) -> Outcome<Seq<usize>> {
    match values {
        None => Outcome::Value(Seq::empty()),
        Some(v) => items_outcome(split_on(v, ',')),
    }
}

proof fn lemma_items_stop(items: Seq<Seq<char>>, n: int)
    requires
        0 <= n <= items.len(),
        !(items_outcome(items.take(n)) is Value),
    ensures
        items_outcome(items) == items_outcome(items.take(n)),
    decreases items.len() - n,
{
    if n < items.len() {
        assert(items.take(n + 1).drop_last() =~= items.take(n));
        lemma_items_stop(items, n + 1);
    } else {
        assert(items.take(n) =~= items);
    }
}

fn read_index(text: &[char]) -> (r: Result<usize, Error>)
    ensures
        match parse_unsigned(text@, usize::MAX as nat) {
            Some(v) => r matches Ok(u) && u == v,
            None => r matches Err(e) && e is ParseInt,
        },
{
    match parse_usize_chars(text) {
        Ok(v) => Ok(v),
        Err(e) => Err(Error::ParseInt(e)),
    }
}

/// Reads one item; `None` when the program would halt on it.
fn read_item(item: &[char]) -> (r: Option<Result<Vec<usize>, Error>>)
    ensures
        match item_outcome(item@) {
            Outcome::Value(vs) => r matches Some(Ok(v)) && v@ == vs,
            Outcome::Fault(f) => r matches Some(Err(e)) && reports_arg_fault(e, f),
            Outcome::Halt => r is None,
        },
{
    let parts = split_chars(item, '-');
    if parts.len() == 2 {
        let start = match read_index(parts[0].as_slice()) {
            Ok(v) => v,
            Err(e) => {
                return Some(Err(e));
            },
        };
        let end = match read_index(parts[1].as_slice()) {
            Ok(v) => v,
            Err(e) => {
                return Some(Err(e));
            },
        };
        if !(start < end) {
            return None;
        }
        let mut out: Vec<usize> = Vec::new();
        let mut i: usize = start;
        loop
            invariant_except_break
                start <= i <= end,
                out@.len() == i - start,
                forall|k: int| 0 <= k < out@.len() ==> out@[k] == start + k,
            ensures
                out@.len() == end - start + 1,
                forall|k: int| 0 <= k < out@.len() ==> out@[k] == start + k,
            decreases end - i,
        {
            out.push(i);
            if i == end {
                break;
            }
            i = i + 1;
        }
        assert(out@ =~= index_range(start as nat, end as nat));
        Some(Ok(out))
    } else {
        match read_index(item) {
            Ok(v) => Some(Ok(vec![v])),
            Err(e) => Some(Err(e)),
        }
    }
}

/// Reads a comma-separated index list; `None` when the program would halt on it.
fn read_items(values: &[char]) -> (r: Option<Result<Vec<usize>, Error>>)
    ensures
        match items_outcome(split_on(values@, ',')) {
            Outcome::Value(vs) => r matches Some(Ok(v)) && v@ == vs,
            Outcome::Fault(f) => r matches Some(Err(e)) && reports_arg_fault(e, f),
            Outcome::Halt => r is None,
        },
{
    let items = split_chars(values, ',');
    let ghost ps = split_on(values@, ',');
    let mut out: Vec<usize> = Vec::new();
    let mut i: usize = 0;
    assert(ps.take(0) =~= Seq::<Seq<char>>::empty());
    while i < items.len()
        invariant
            ps == split_on(values@, ','),
            items@.len() == ps.len(),
            forall|k: int| 0 <= k < ps.len() ==> #[trigger] items@[k]@ == ps[k],
            0 <= i <= ps.len(),
            items_outcome(ps.take(i as int)) == Outcome::Value(out@),
        decreases ps.len() - i,
    {
        assert(ps.take(i + 1).drop_last() =~= ps.take(i as int));
        assert(ps.take(i + 1).last() == ps[i as int]);
        match read_item(items[i].as_slice()) {
            Some(Ok(vs)) => {
                let ghost before = out@;
                let mut j: usize = 0;
                while j < vs.len()
                    invariant
                        0 <= j <= vs@.len(),
                        out@ == before + vs@.take(j as int),
                    decreases vs@.len() - j,
                {
                    out.push(vs[j]);
                    j = j + 1;
                    assert(out@ =~= before + vs@.take(j as int));
                }
                assert(vs@.take(vs@.len() as int) =~= vs@);
            },
            Some(Err(e)) => {
                proof {
                    lemma_items_stop(ps, i + 1);
                }
                return Some(Err(e));
            },
            None => {
                proof {
                    lemma_items_stop(ps, i + 1);
                }
                return None;
            },
        }
        i = i + 1;
    }
    assert(ps.take(ps.len() as int) =~= ps);
    Some(Ok(out))
}

/// Whether the program halts on this index list (an item `a-b` with `a >= b`, met before
/// any item that cannot be read).
pub open spec fn index_list_halts(values: Option<Seq<char>>) -> bool {
    index_list_outcome(values) is Halt
}

/// The indexes of an optional list such as `1`, `1,3,4` or `1-21`, in the order written;
/// none at all is the empty list.
pub fn parse_items(values: Option<&str>) -> (r: Result<Vec<usize>, Error>)
    requires
        !index_list_halts(
            match values {
                Some(v) => Some(v@),
                None => None,
            },
        ),
    ensures
        match index_list_outcome(
            match values {
                Some(v) => Some(v@),
                None => None,
            },
        ) {
            Outcome::Value(vs) => r matches Ok(v) && v@ == vs,
            Outcome::Fault(f) => r matches Err(e) && reports_arg_fault(e, f),
            Outcome::Halt => false,
        },
{
    match values {
        None => Ok(Vec::new()),
        Some(v) => match read_items(&chars_of(v)) {
            Some(r) => r,
            None => {
                assert(false);
                Ok(Vec::new())
            },
        },
    }
}

// ---------------------------------------------------------------------------
// Tag acronyms: `u`, `u,h,d`
// ---------------------------------------------------------------------------

/// How one acronym reads: a single acronym letter, or `UnknownTag` with the text.
pub open spec fn acronym_outcome(item: Seq<char>) -> Result<RetentionTag, Seq<char>> {
    if item.len() == 1 {
        match tag_from_acronym(item[0]) {
            Some(t) => Ok(t),
            None => Err(item),
        }
    } else {
        Err(item)
    }
}

/// The tags of a list of acronyms in order, or the first that is unknown.
pub open spec fn acronyms_outcome(items: Seq<Seq<char>>) -> Result<Seq<RetentionTag>, Seq<char>>
    decreases items.len(),
{
    if items.len() == 0 {
        Ok(Seq::empty())
    } else {
        match acronyms_outcome(items.drop_last()) {
            Ok(ts) => match acronym_outcome(items.last()) {
                Ok(t) => Ok(ts.push(t)),
                Err(bad) => Err(bad),
            },
            Err(bad) => Err(bad),
        }
    }
}

/// How an optional list of acronyms reads: none at all is the empty list.
pub open spec fn acronym_list_outcome(values: Option<Seq<char>>) -> Result<Seq<RetentionTag>, Seq<char>> {
    match values {
        None => Ok(Seq::empty()),
        Some(v) => acronyms_outcome(split_on(v, ',')),
    }
}

proof fn lemma_acronyms_stop(items: Seq<Seq<char>>, n: int)
    requires
        0 <= n <= items.len(),
        acronyms_outcome(items.take(n)) is Err,
    ensures
        acronyms_outcome(items) == acronyms_outcome(items.take(n)),
    decreases items.len() - n,
{
    if n < items.len() {
        assert(items.take(n + 1).drop_last() =~= items.take(n));
        lemma_acronyms_stop(items, n + 1);
    } else {
        assert(items.take(n) =~= items);
    }
}

/// The tags of an optional comma-separated list of acronyms (`u`, `h`, `d`, `w`, `m`, `a`);
/// none at all is the empty list; `UnknownTag` with the first item that is not an acronym.
pub fn parse_acronyms(values: Option<&str>) -> (r: Result<Vec<RetentionTag>, Error>)
    ensures
        match acronym_list_outcome(
            match values {
                Some(v) => Some(v@),
                None => None,
            },
        ) {
            Ok(ts) => r matches Ok(v) && v@ == ts,
            Err(bad) => r matches Err(Error::UnknownTag(s)) && s@ == bad,
        },
{
    let v = match values {
        None => {
            return Ok(Vec::new());
        },
        Some(v) => v,
    };
    let items = split_chars(&chars_of(v), ',');
    let ghost ps = split_on(v@, ',');
    let mut out: Vec<RetentionTag> = Vec::new();
    let mut i: usize = 0;
    assert(ps.take(0) =~= Seq::<Seq<char>>::empty());
    while i < items.len()
        invariant
            values == Some(v),
            ps == split_on(v@, ','),
            items@.len() == ps.len(),
            forall|k: int| 0 <= k < ps.len() ==> #[trigger] items@[k]@ == ps[k],
            0 <= i <= ps.len(),
            acronyms_outcome(ps.take(i as int)) == Ok::<Seq<RetentionTag>, Seq<char>>(out@),
        decreases ps.len() - i,
    {
        assert(ps.take(i + 1).drop_last() =~= ps.take(i as int));
        assert(ps.take(i + 1).last() == ps[i as int]);
        let item = &items[i];
        let parsed = if item.len() == 1 {
            RetentionTag::from_acronym(item[0])
        } else {
            Err(Error::UnknownTag(string_from_chars(item.as_slice())))
        };
        match parsed {
            Ok(t) => out.push(t),
            Err(e) => {
                proof {
                    if item@.len() == 1 {
                        assert(item@ =~= seq![item@[0]]);
                    }
                    assert(acronym_outcome(ps[i as int]) == Err::<RetentionTag, Seq<char>>(ps[i as int]));
                    assert(acronyms_outcome(ps.take(i + 1)) == Err::<Seq<RetentionTag>, Seq<char>>(ps[i as int]));
                    lemma_acronyms_stop(ps, i + 1);
                }
                return Err(e);
            },
        }
        i = i + 1;
    }
    assert(ps.take(ps.len() as int) =~= ps);
    Ok(out)
}

/// The id given, or `FromStrError("Missing id value")` when there is none.
pub fn parse_id(value: Option<&str>) -> (r: Result<usize, Error>)
    ensures
        match value {
            Some(v) => match parse_unsigned(v@, usize::MAX as nat) {
                Some(n) => r matches Ok(u) && u == n,
                None => r matches Err(e) && e is ParseInt,
            },
            None => r matches Err(Error::FromStrError(s)) && s@ == "Missing id value"@,
        },
{
    match value {
        Some(v) => read_index(&chars_of(v)),
        None => Err(Error::FromStrError("Missing id value".to_owned())),
    }
}

// ---------------------------------------------------------------------------
// The argument list
// ---------------------------------------------------------------------------

/// The options gathered while reading the arguments.
pub struct ArgScan {
    pub command: Option<Seq<char>>,
    pub size: bool,
    pub take_tag: Option<Seq<char>>,
    pub indexes: Option<Seq<char>>,
    pub acronyms: Option<Seq<char>>,
    pub remove: bool,
    pub force: bool,
    pub dump: bool,
}

pub open spec fn initial_scan() -> ArgScan {
    ArgScan {
        command: None,
        size: false,
        take_tag: None,
        indexes: None,
        acronyms: None,
        remove: false,
        force: false,
        dump: false,
    }
}

/// The argument at `pos`, if there is one.
pub open spec fn arg_at(args: Seq<Seq<char>>, pos: int) -> Option<Seq<char>> {
    if 0 <= pos < args.len() {
        Some(args[pos])
    } else {
        None
    }
}

/// The position after taking the argument at `pos`, if there is one.
pub open spec fn after_arg(args: Seq<Seq<char>>, pos: int) -> int {
    if pos < args.len() {
        pos + 1
    } else {
        pos
    }
}

/// Where reading a group of short flags such as `-sa` ends.
pub enum FlagsEnd {
    /// All flags read; the next unread argument and the options so far.
    Continue(int, ArgScan),
    Help,
    Version,
    Invalid(char),
}

/// Reads the letters of a short-flag group; `i` and `a` take the next unread argument
/// as their value.
pub open spec fn scan_flags(args: Seq<Seq<char>>, next: int, flags: Seq<char>, st: ArgScan) -> FlagsEnd
    decreases flags.len(),
{
    if flags.len() == 0 {
        FlagsEnd::Continue(next, st)
    } else {
        let c = flags[0];
        let rest = flags.drop_first();
        if c == 'h' {
            FlagsEnd::Help
        } else if c == 'v' {
            FlagsEnd::Version
        } else if c == 's' {
            scan_flags(args, next, rest, ArgScan { size: true, ..st })
        } else if c == 'i' {
            scan_flags(args, after_arg(args, next), rest, ArgScan { indexes: arg_at(args, next), ..st })
        } else if c == 'a' {
            scan_flags(args, after_arg(args, next), rest, ArgScan { acronyms: arg_at(args, next), ..st })
        } else {
            FlagsEnd::Invalid(c)
        }
    }
}

pub proof fn lemma_scan_flags_advance(args: Seq<Seq<char>>, next: int, flags: Seq<char>, st: ArgScan)
    requires
        next <= args.len(),
    ensures
        scan_flags(args, next, flags, st) matches FlagsEnd::Continue(p, _) ==> next <= p <= args.len(),
    decreases flags.len(),
{
    if flags.len() > 0 {
        let rest = flags.drop_first();
        lemma_scan_flags_advance(args, next, rest, ArgScan { size: true, ..st });
        lemma_scan_flags_advance(args, after_arg(args, next), rest, ArgScan { indexes: arg_at(args, next), ..st });
        lemma_scan_flags_advance(args, after_arg(args, next), rest, ArgScan { acronyms: arg_at(args, next), ..st });
    }
}

/// Where reading the arguments ends.
pub enum ScanEnd {
    Finished(ArgScan),
    Help,
    Version,
    InvalidShort(char),
    InvalidLong(Seq<char>),
}

pub open spec fn is_short_flag(a: Seq<char>) -> bool {
    a.len() >= 1 && a[0] == '-' && !(a.len() >= 2 && a[1] == '-')
}

pub open spec fn is_long_flag(a: Seq<char>) -> bool {
    a.len() >= 2 && a[0] == '-' && a[1] == '-'
}

/// Reads the arguments from `pos` on: short-flag groups, long flags (`--tag` takes the
/// next argument), and any other argument as the command (the last one counts).
pub open spec fn scan_args(args: Seq<Seq<char>>, pos: int, st: ArgScan) -> ScanEnd
    decreases args.len() - pos,
{
    if pos < 0 || pos >= args.len() {
        ScanEnd::Finished(st)
    } else {
        let a = args[pos];
        if is_short_flag(a) {
            proof {
                lemma_scan_flags_advance(args, pos + 1, a.drop_first(), st);
            }
            match scan_flags(args, pos + 1, a.drop_first(), st) {
                FlagsEnd::Continue(p, st2) => scan_args(args, p, st2),
                FlagsEnd::Help => ScanEnd::Help,
                FlagsEnd::Version => ScanEnd::Version,
                FlagsEnd::Invalid(c) => ScanEnd::InvalidShort(c),
            }
        } else if is_long_flag(a) {
            if a == "--tag"@ {
                scan_args(args, after_arg(args, pos + 1), ArgScan { take_tag: arg_at(args, pos + 1), ..st })
            } else if a == "--remove"@ {
                scan_args(args, pos + 1, ArgScan { remove: true, ..st })
            } else if a == "--force"@ {
                scan_args(args, pos + 1, ArgScan { force: true, ..st })
            } else if a == "--help"@ {
                ScanEnd::Help
            } else if a == "--version"@ {
                ScanEnd::Version
            } else if a == "--dump"@ {
                scan_args(args, pos + 1, ArgScan { dump: true, ..st })
            } else {
                ScanEnd::InvalidLong(a)
            }
        } else {
            scan_args(args, pos + 1, ArgScan { command: Some(a), ..st })
        }
    }
}

/// The tag given to `take`: a single acronym; anything else gives no tag.
pub open spec fn take_tag_of(t: Option<Seq<char>>) -> Option<RetentionTag> {
    match t {
        Some(s) => match acronym_outcome(s) {
            Ok(tag) => Some(tag),
            Err(_) => None,
        },
        None => None,
    }
}

/// The selection of `list` and `rm`: the index list, then the acronym list.
pub open spec fn selection_outcome(st: ArgScan) -> Outcome<(Seq<usize>, Seq<RetentionTag>)> {
    match index_list_outcome(st.indexes) {
        Outcome::Value(is) => match acronym_list_outcome(st.acronyms) {
            Ok(ts) => Outcome::Value((is, ts)),
            Err(bad) => Outcome::Fault(ArgFault::Tag(bad)),
        },
        Outcome::Fault(f) => Outcome::Fault(f),
        Outcome::Halt => Outcome::Halt,
    }
}

/// The command the arguments ask for (the first argument is the program itself): help when
/// there is no command; `take`, `list`, `rm` (or `list --remove`) and `checkhealth`; the
/// program halts on an unknown flag or command.
pub open spec fn command_outcome(args: Seq<Seq<char>>) -> Outcome<CommandView> {
    match scan_args(args, 1, initial_scan()) {
        ScanEnd::Help => Outcome::Value(CommandView::Help),
        ScanEnd::Version => Outcome::Value(CommandView::Version),
        ScanEnd::InvalidShort(_) => Outcome::Halt,
        ScanEnd::InvalidLong(_) => Outcome::Halt,
        ScanEnd::Finished(st) => match st.command {
            None => Outcome::Value(CommandView::Help),
            Some(cmd) => if cmd == "take"@ {
                Outcome::Value(CommandView::Take(take_tag_of(st.take_tag)))
            } else if cmd == "list"@ && !st.remove {
                match selection_outcome(st) {
                    Outcome::Value((is, ts)) => Outcome::Value(CommandView::List(st.size, Some(is), Some(ts))),
                    Outcome::Fault(f) => Outcome::Fault(f),
                    Outcome::Halt => Outcome::Halt,
                }
            } else if cmd == "rm"@ || (cmd == "list"@ && st.remove) {
                match selection_outcome(st) {
                    Outcome::Value((is, ts)) => Outcome::Value(CommandView::Remove(Some(is), Some(ts), st.force)),
                    Outcome::Fault(f) => Outcome::Fault(f),
                    Outcome::Halt => Outcome::Halt,
                }
            } else if cmd == "checkhealth"@ {
                Outcome::Value(CommandView::CheckHealth(st.dump))
            } else {
                Outcome::Halt
            },
        },
    }
}

pub open spec fn args_view(args: Seq<String>) -> Seq<Seq<char>> {
    args.map_values(|s: String| s@)
}

/// The options gathered so far, with each text given by its position in the arguments.
struct ScanState {
    command: Option<usize>,
    size: bool,
    take_tag: Option<usize>,
    indexes: Option<usize>,
    acronyms: Option<usize>,
    remove: bool,
    force: bool,
    dump: bool,
}

spec fn at(args: Seq<Seq<char>>, p: Option<usize>) -> Option<Seq<char>> {
    match p {
        Some(i) => Some(args[i as int]),
        None => None,
    }
}

spec fn positions_ok(args: Seq<Seq<char>>, st: ScanState) -> bool {
    &&& (st.command matches Some(i) ==> i < args.len())
    &&& (st.take_tag matches Some(i) ==> i < args.len())
    &&& (st.indexes matches Some(i) ==> i < args.len())
    &&& (st.acronyms matches Some(i) ==> i < args.len())
}

spec fn scan_view(args: Seq<Seq<char>>, st: ScanState) -> ArgScan {
    ArgScan {
        command: at(args, st.command),
        size: st.size,
        take_tag: at(args, st.take_tag),
        indexes: at(args, st.indexes),
        acronyms: at(args, st.acronyms),
        remove: st.remove,
        force: st.force,
        dump: st.dump,
    }
}

enum ScanResult {
    Finished(ScanState),
    Help,
    Version,
    InvalidShort(char),
    InvalidLong(usize),
}

/// The argument after `next`, if any, and the position after it.
fn take_next(args: &[String], next: usize) -> (r: (Option<usize>, usize))
    requires
        next <= args@.len(),
    ensures
        at(args_view(args@), r.0) == arg_at(args_view(args@), next as int),
        r.1 as int == after_arg(args_view(args@), next as int),
        r.0 matches Some(i) ==> i < args@.len(),
        r.1 <= args@.len(),
{
    if next < args.len() {
        (Some(next), next + 1)
    } else {
        (None, next)
    }
}

fn scan_arguments(args: &[String]) -> (r: ScanResult)
    ensures
        match scan_args(args_view(args@), 1, initial_scan()) {
            ScanEnd::Finished(st) => r matches ScanResult::Finished(s) && positions_ok(args_view(args@), s)
                && scan_view(args_view(args@), s) == st,
            ScanEnd::Help => r is Help,
            ScanEnd::Version => r is Version,
            ScanEnd::InvalidShort(c) => r matches ScanResult::InvalidShort(d) && d == c,
            ScanEnd::InvalidLong(a) => r matches ScanResult::InvalidLong(i) && i < args@.len()
                && args_view(args@)[i as int] == a,
        },
{
    let ghost av = args_view(args@);
    let mut st = ScanState {
        command: None,
        size: false,
        take_tag: None,
        indexes: None,
        acronyms: None,
        remove: false,
        force: false,
        dump: false,
    };
    let mut pos: usize = 1;
    if args.len() == 0 {
        return ScanResult::Finished(st);
    }
    assert(scan_view(av, st) == initial_scan());
    while pos < args.len()
        invariant
            av == args_view(args@),
            1 <= pos <= args@.len(),
            positions_ok(av, st),
            scan_args(av, 1, initial_scan()) == scan_args(av, pos as int, scan_view(av, st)),
        decreases args@.len() - pos,
    {
        let a = chars_of(args[pos].as_str());
        assert(a@ == av[pos as int]);
        let short = a.len() >= 1 && a[0] == '-' && !(a.len() >= 2 && a[1] == '-');
        let long = a.len() >= 2 && a[0] == '-' && a[1] == '-';
        if short {
            let ghost st0 = scan_view(av, st);
            let mut next: usize = pos + 1;
            let mut j: usize = 1;
            assert(a@.drop_first() =~= a@.skip(1));
            while j < a.len()
                invariant
                    av == args_view(args@),
                    a@ == av[pos as int],
                    1 <= pos < args@.len(),
                    1 <= j <= a@.len(),
                    pos + 1 <= next <= args@.len(),
                    positions_ok(av, st),
                    is_short_flag(a@),
                    scan_args(av, 1, initial_scan()) == scan_args(av, pos as int, st0),
                    scan_flags(av, pos + 1, a@.drop_first(), st0) == scan_flags(av, next as int, a@.skip(j as int), scan_view(av, st)),
                decreases a@.len() - j,
            {
                let c = a[j];
                let ghost rest = a@.skip(j as int);
                assert(rest[0] == c);
                assert(rest.drop_first() =~= a@.skip(j + 1));
                if c == 'h' {
                    return ScanResult::Help;
                } else if c == 'v' {
                    return ScanResult::Version;
                } else if c == 's' {
                    st.size = true;
                } else if c == 'i' {
                    let (p, n) = take_next(args, next);
                    st.indexes = p;
                    next = n;
                } else if c == 'a' {
                    let (p, n) = take_next(args, next);
                    st.acronyms = p;
                    next = n;
                } else {
                    return ScanResult::InvalidShort(c);
                }
                j = j + 1;
            }
            assert(a@.skip(j as int) =~= Seq::<char>::empty());
            pos = next;
        } else if long {
            if chars_eq(&a, &chars_of("--tag")) {
                let (p, n) = take_next(args, pos + 1);
                st.take_tag = p;
                pos = n;
            } else if chars_eq(&a, &chars_of("--remove")) {
                st.remove = true;
                pos = pos + 1;
            } else if chars_eq(&a, &chars_of("--force")) {
                st.force = true;
                pos = pos + 1;
            } else if chars_eq(&a, &chars_of("--help")) {
                return ScanResult::Help;
            } else if chars_eq(&a, &chars_of("--version")) {
                return ScanResult::Version;
            } else if chars_eq(&a, &chars_of("--dump")) {
                st.dump = true;
                pos = pos + 1;
            } else {
                return ScanResult::InvalidLong(pos);
            }
        } else {
            st.command = Some(pos);
            pos = pos + 1;
        }
    }
    ScanResult::Finished(st)
}

/// What the arguments come to, with the message the program halts with.
enum Evaluation {
    Done(Result<Command, Error>),
    Halt(String),
}

fn text_is(a: &String, lit: &str) -> (r: bool)
    ensures
        r == (a@ == lit@),
{
    chars_eq(&chars_of(a.as_str()), &chars_of(lit))
}

fn halt_message(prefix: &str, detail: &[char]) -> (r: String)
    ensures
        r@ == prefix@ + detail@,
{
    let mut out: Vec<char> = Vec::new();
    push_all(&mut out, &chars_of(prefix));
    push_all(&mut out, detail);
    string_from_chars(&out)
}

fn read_selection(args: &[String], st: &ScanState) -> (r: Option<Result<(Vec<usize>, Vec<RetentionTag>), Error>>)
    requires
        positions_ok(args_view(args@), *st),
    ensures
        match selection_outcome(scan_view(args_view(args@), *st)) {
            Outcome::Value((is, ts)) => r matches Some(Ok((v, w))) && v@ == is && w@ == ts,
            Outcome::Fault(f) => r matches Some(Err(e)) && reports_arg_fault(e, f),
            Outcome::Halt => r is None,
        },
{
    let indexes = match st.indexes {
        Some(i) => match read_items(&chars_of(args[i].as_str())) {
            Some(Ok(v)) => v,
            Some(Err(e)) => {
                return Some(Err(e));
            },
            None => {
                return None;
            },
        },
        None => Vec::new(),
    };
    let acronyms = match st.acronyms {
        Some(i) => parse_acronyms(Some(args[i].as_str())),
        None => parse_acronyms(None),
    };
    match acronyms {
        Ok(ts) => Some(Ok((indexes, ts))),
        Err(e) => Some(Err(e)),
    }
}

fn evaluate(args: &[String]) -> (r: Evaluation)
    ensures
        match command_outcome(args_view(args@)) {
            Outcome::Value(c) => r matches Evaluation::Done(Ok(cmd)) && cmd@ == c,
            Outcome::Fault(f) => r matches Evaluation::Done(Err(e)) && reports_arg_fault(e, f),
            Outcome::Halt => r matches Evaluation::Halt(m) && m@ == halt_text(args_view(args@)),
        },
{
    let ghost av = args_view(args@);
    let st = match scan_arguments(args) {
        ScanResult::Help => {
            return Evaluation::Done(Ok(Command::Help));
        },
        ScanResult::Version => {
            return Evaluation::Done(Ok(Command::Version));
        },
        ScanResult::InvalidShort(c) => {
            let v = vec![c];
            return Evaluation::Halt(halt_message("not implemented: Invalid short argument: ", &v));
        },
        ScanResult::InvalidLong(i) => {
            return Evaluation::Halt(halt_message("not implemented: Invalid long argument: ", &chars_of(args[i].as_str())));
        },
        ScanResult::Finished(st) => st,
    };
    let ghost sv = scan_view(av, st);
    let cmd_pos = match st.command {
        None => {
            return Evaluation::Done(Ok(Command::Help));
        },
        Some(i) => i,
    };
    let cmd = &args[cmd_pos];
    assert(sv.command == Some(cmd@));
    if text_is(cmd, "take") {
        let tag = match st.take_tag {
            Some(i) => {
                let t = &args[i];
                let tc = chars_of(t.as_str());
                if tc.len() == 1 {
                    assert(tc@ =~= seq![tc@[0]]);
                    match RetentionTag::from_acronym(tc[0]) {
                        Ok(tag) => Some(tag),
                        Err(_) => None,
                    }
                } else {
                    None
                }
            },
            None => None,
        };
        return Evaluation::Done(Ok(Command::Take { tag }));
    }
    let is_list = text_is(cmd, "list");
    if (is_list && !st.remove) || text_is(cmd, "rm") || (is_list && st.remove) {
        match read_selection(args, &st) {
            Some(Ok((indexes, acronyms))) => {
                if is_list && !st.remove {
                    return Evaluation::Done(
                        Ok(Command::List { size: st.size, indexes: Some(indexes), acronyms: Some(acronyms) }),
                    );
                } else {
                    return Evaluation::Done(
                        Ok(Command::Remove { indexes: Some(indexes), acronyms: Some(acronyms), force: st.force }),
                    );
                }
            },
            Some(Err(e)) => {
                return Evaluation::Done(Err(e));
            },
            None => {
                return Evaluation::Halt("assertion failed: start < end".to_owned());
            },
        }
    }
    if text_is(cmd, "checkhealth") {
        return Evaluation::Done(Ok(Command::CheckHealth { dump: st.dump }));
    }
    Evaluation::Halt(halt_message("not implemented: Unknown command: ", &chars_of(cmd.as_str())))
}

/// Whether the program halts on these arguments.
pub open spec fn arguments_halt(args: Seq<String>) -> bool {
    command_outcome(args_view(args)) is Halt
}

/// The message the program halts with on arguments it halts on: that of an unknown flag or
/// command, or of an index range that does not rise.
pub open spec fn halt_text(args: Seq<Seq<char>>) -> Seq<char> {
    match scan_args(args, 1, initial_scan()) {
        ScanEnd::InvalidShort(c) => "not implemented: Invalid short argument: "@ + seq![c],
        ScanEnd::InvalidLong(a) => "not implemented: Invalid long argument: "@ + a,
        ScanEnd::Finished(st) => match st.command {
            Some(cmd) => if cmd == "list"@ || cmd == "rm"@ {
                "assertion failed: start < end"@
            } else {
                "not implemented: Unknown command: "@ + cmd
            },
            None => Seq::empty(),
        },
        _ => Seq::empty(),
    }
}

/// The message the program halts with on these arguments, or `None` when it does not halt.
pub fn argument_halt(args: &[String]) -> (r: Option<String>)
    ensures
        r is Some <==> arguments_halt(args@),
        r matches Some(m) ==> m@ == halt_text(args_view(args@)),
{
    match evaluate(args) {
        Evaluation::Halt(m) => Some(m),
        Evaluation::Done(_) => None,
    }
}

/// The command that the arguments (the program itself first) ask for.
pub fn parse_argument(args: &[String]) -> (r: Result<Command, Error>)
    requires
        !arguments_halt(args@),
    ensures
        match command_outcome(args_view(args@)) {
            Outcome::Value(c) => r matches Ok(cmd) && cmd@ == c,
            Outcome::Fault(f) => r matches Err(e) && reports_arg_fault(e, f),
            Outcome::Halt => false,
        },
{
    match evaluate(args) {
        Evaluation::Done(r) => r,
        Evaluation::Halt(_) => {
            assert(false);
            Ok(Command::Help)
        },
    }
}

proof fn lemma_flags_set_size(args: Seq<Seq<char>>, next: int, flags: Seq<char>, st: ArgScan)
    ensures
        match scan_flags(args, next, flags, st) {
            FlagsEnd::Continue(_, st2) => {
                &&& st2.size ==> (st.size || flags.contains('s'))
                &&& st2.force == st.force
                &&& st2.dump == st.dump
                &&& st2.remove == st.remove
            },
            _ => true,
        },
    decreases flags.len(),
{
    if flags.len() > 0 {
        let rest = flags.drop_first();
        lemma_flags_set_size(args, next, rest, ArgScan { size: true, ..st });
        lemma_flags_set_size(args, after_arg(args, next), rest, ArgScan { indexes: arg_at(args, next), ..st });
        lemma_flags_set_size(args, after_arg(args, next), rest, ArgScan { acronyms: arg_at(args, next), ..st });
        lemma_flags_set_size(args, next, rest, st);
        if rest.contains('s') {
            let j = choose|j: int| 0 <= j < rest.len() && rest[j] == 's';
            assert(flags[j + 1] == 's');
        }
        if flags[0] == 's' {
            assert(flags.contains('s'));
        }
    }
}

proof fn lemma_scan_sets_options(args: Seq<Seq<char>>, pos: int, st: ArgScan)
    requires
        pos >= 0,
    ensures
        match scan_args(args, pos, st) {
            ScanEnd::Finished(st2) => {
                &&& st2.size ==> (st.size || exists|p: int|
                    pos <= p < args.len() && (#[trigger] args[p]).len() >= 2 && args[p][0] == '-' && args[p][1]
                        != '-' && args[p].drop_first().contains('s'))
                &&& st2.force ==> (st.force || exists|p: int| pos <= p < args.len() && #[trigger] args[p] == "--force"@)
                &&& st2.dump ==> (st.dump || exists|p: int| pos <= p < args.len() && #[trigger] args[p] == "--dump"@)
                &&& st2.remove ==> (st.remove || exists|p: int|
                    pos <= p < args.len() && #[trigger] args[p] == "--remove"@)
            },
            _ => true,
        },
    decreases args.len() - pos,
{
    if pos < args.len() {
        let a = args[pos];
        if is_short_flag(a) {
            lemma_scan_flags_advance(args, pos + 1, a.drop_first(), st);
            lemma_flags_set_size(args, pos + 1, a.drop_first(), st);
            match scan_flags(args, pos + 1, a.drop_first(), st) {
                FlagsEnd::Continue(p, st2) => {
                    lemma_scan_sets_options(args, p, st2);
                    if a.drop_first().contains('s') {
                        let j = choose|j: int| 0 <= j < a.drop_first().len() && a.drop_first()[j] == 's';
                        assert(a[j + 1] == 's');
                        assert(a.len() >= 2);
                    }
                },
                _ => {},
            }
        } else if is_long_flag(a) {
            if a == "--tag"@ {
                lemma_scan_sets_options(args, after_arg(args, pos + 1), ArgScan { take_tag: arg_at(args, pos + 1), ..st });
            } else if a == "--remove"@ {
                lemma_scan_sets_options(args, pos + 1, ArgScan { remove: true, ..st });
            } else if a == "--force"@ {
                lemma_scan_sets_options(args, pos + 1, ArgScan { force: true, ..st });
            } else if a == "--dump"@ {
                lemma_scan_sets_options(args, pos + 1, ArgScan { dump: true, ..st });
            }
        } else {
            lemma_scan_sets_options(args, pos + 1, ArgScan { command: Some(a), ..st });
        }
    }
}

/// An option is on only when the command line gives it: `list` shows sizes only when a
/// group of short flags holds `s`; `--force` and `--dump` hold only when written among the
/// arguments after the program's own name.
pub proof fn lemma_options_only_when_given(args: Seq<Seq<char>>)
    ensures
        match command_outcome(args) {
            Outcome::Value(CommandView::List(size, _, _)) => size ==> exists|p: int|
                1 <= p < args.len() && (#[trigger] args[p]).len() >= 2 && args[p][0] == '-' && args[p][1] != '-'
                    && args[p].drop_first().contains('s'),
            _ => true,
        },
        match command_outcome(args) {
            Outcome::Value(CommandView::Remove(_, _, force)) => force ==> exists|p: int|
                1 <= p < args.len() && #[trigger] args[p] == "--force"@,
            _ => true,
        },
        match command_outcome(args) {
            Outcome::Value(CommandView::CheckHealth(dump)) => dump ==> exists|p: int|
                1 <= p < args.len() && #[trigger] args[p] == "--dump"@,
            _ => true,
        },
{
    lemma_scan_sets_options(args, 1, initial_scan());
}

} // verus!
