//! Listing snapshots: calendar dates of timestamps, and which rows a selection picks.
use vstd::prelude::*;

use crate::meta::{metas_view, slice_contains, tags_mask, MetaView, RetentionTag, SnapshotMetaData};
use crate::style::Colour;
use crate::text::{
    chars_of, decimal_chars, decimal_digits, pad_right, push_all, push_padded_right, push_signed_zero_padded,
    push_zero_padded, signed_zero_padded, string_from_chars, zero_pad,
};

verus! {

pub const HOUR_IN_SECONDS: u64 = 3600;

pub const DAY_IN_SECONDS: u64 = 86400;

pub const WEEK_IN_SECONDS: u64 = 604800;

pub open spec fn era_year_start(y: int) -> int {
    365 * y + y / 4 - y / 100
}

proof fn lemma_year_of_era(doe: int)
    requires
        0 <= doe <= 146096,
    ensures
        ({
            let yoe = (doe - doe / 1460 + doe / 36524 - doe / 146096) / 365;
            &&& 0 <= yoe <= 399
            &&& era_year_start(yoe) <= doe
            &&& (doe < era_year_start(yoe + 1) || (yoe == 399 && doe == 146096))
        }),
{
}

pub open spec fn march_month_start(mp: int) -> int {
    (153 * mp + 2) / 5
}

proof fn lemma_month_of_year(doy: int)
    requires
        0 <= doy <= 365,
    ensures
        ({
            let mp = (5 * doy + 2) / 153;
            &&& 0 <= mp <= 11
            &&& march_month_start(mp) <= doy < march_month_start(mp + 1)
        }),
{
}
pub open spec fn is_leap_year(y: int) -> bool {
    y % 4 == 0 && (y % 100 != 0 || y % 400 == 0)
}

pub open spec fn days_in_month(y: int, m: int) -> int {
    if m == 2 {
        if is_leap_year(y) { 29 } else { 28 }
    } else if m == 4 || m == 6 || m == 9 || m == 11 {
        30
    } else {
        31
    }
}

pub open spec fn is_valid_date(y: int, m: int, d: int) -> bool {
    1 <= m <= 12 && 1 <= d <= days_in_month(y, m)
}

#[verifier::opaque]
pub open spec fn days_before_year(y: int) -> int {
    365 * y + (y + 3) / 4 - (y + 99) / 100 + (y + 399) / 400
}

pub open spec fn month_base(m: int) -> int {
    if m == 1 { 0 } else if m == 2 { 31 } else if m == 3 { 59 } else if m == 4 { 90 }
        else if m == 5 { 120 } else if m == 6 { 151 } else if m == 7 { 181 } else if m == 8 { 212 }
        else if m == 9 { 243 } else if m == 10 { 273 } else if m == 11 { 304 } else { 334 }
}

pub open spec fn days_before_month(y: int, m: int) -> int {
    if m > 2 && is_leap_year(y) { month_base(m) + 1 } else { month_base(m) }
}

pub open spec fn days_since_epoch(y: int, m: int, d: int) -> int {
    days_before_year(y) + days_before_month(y, m) + d - 1 - days_before_year(1970)
}

proof fn lemma_march_first(era: int, yoe: int)
    requires
        0 <= yoe <= 399, era >= 0,
    ensures
        ({
            let a = yoe + 400 * era;
            days_before_year(a) + 59 + (if is_leap_year(a) { 1int } else { 0 }) - 60
                == 146097 * era + era_year_start(yoe)
        }),
{
    reveal(days_before_year);
    let a = yoe + 400 * era;
    assert((a + 3) / 4 == (yoe + 3) / 4 + 100 * era);
    assert((a + 99) / 100 == (yoe + 99) / 100 + 4 * era);
    assert((a + 399) / 400 == (yoe + 399) / 400 + era);
    assert(a / 4 == yoe / 4 + 100 * era);
    assert(a / 100 == yoe / 100 + 4 * era);
    assert(a % 4 == yoe % 4);
    assert(a % 100 == yoe % 100);
    assert(a % 400 == yoe % 400);
}

proof fn lemma_next_year(a: int)
    requires a >= 0,
    ensures
        days_before_year(a + 1) == days_before_year(a) + 365 + (if is_leap_year(a) { 1int } else { 0 }),
{
    reveal(days_before_year);
    assert((a + 4) / 4 == (a + 3) / 4 + (if a % 4 == 0 { 1int } else { 0 })) by (nonlinear_arith)
        requires
            a >= 0,
    ;
    assert((a + 100) / 100 == (a + 99) / 100 + (if a % 100 == 0 { 1int } else { 0 })) by (nonlinear_arith)
        requires
            a >= 0,
    ;
    assert((a + 400) / 400 == (a + 399) / 400 + (if a % 400 == 0 { 1int } else { 0 })) by (nonlinear_arith)
        requires
            a >= 0,
    ;
}

proof fn lemma_month_table(mp: int)
    requires
        0 <= mp <= 11,
    ensures
        mp < 10 ==> month_base(mp + 3) - 59 == march_month_start(mp),
        mp >= 10 ==> month_base(mp - 9) + 306 == march_month_start(mp),
{
}

proof fn lemma_civil(era: int, yoe: int, mp: int, d: int)
    requires
        0 <= yoe <= 399, 0 <= mp <= 11, era >= 0,
    ensures
        ({
            let a = yoe + 400 * era;
            let y = if mp >= 10 { a + 1 } else { a };
            let m = if mp < 10 { mp + 3 } else { mp - 9 };
            days_since_epoch(y, m, d) == 146097 * era + era_year_start(yoe) + march_month_start(mp) + d - 1 - 719468
        }),
{
    let a = yoe + 400 * era;
    lemma_march_first(era, yoe);
    lemma_month_table(mp);
    assert(days_before_year(1970) == 719528) by { reveal(days_before_year); }
    if mp >= 10 {
        lemma_next_year(a);
    }
}

#[verifier::spinoff_prover]
proof fn lemma_year_length(era: int, yoe: int)
    requires 0 <= yoe <= 399, era >= 0,
    ensures
        ({
            let len = if yoe == 399 { 366 } else { era_year_start(yoe + 1) - era_year_start(yoe) };
            len == 365 + (if is_leap_year(yoe + 400 * era + 1) { 1int } else { 0 })
        }),
{
    let a1 = yoe + 400 * era + 1;
    assert(a1 % 4 == (yoe + 1) % 4);
    assert(a1 % 100 == (yoe + 1) % 100);
    assert(a1 % 400 == (yoe + 1) % 400);
}

/// Whether `r` is (year, month, day, hour, minute, second) of the UTC time `secs` seconds
/// after 1970-01-01 00:00:00 in the proleptic Gregorian calendar, the year cut to `i32`.
pub open spec fn is_datetime_of(secs: u64, r: (i32, u32, u32, u32, u32, u32)) -> bool {
    &&& r.3 == (secs % 86400) / 3600
    &&& r.4 == (secs % 3600) / 60
    &&& r.5 == secs % 60
    &&& exists|y: int|
        y >= 1970 && r.0 == y as i32 && is_valid_date(y, r.1 as int, r.2 as int)
            && days_since_epoch(y, r.1 as int, r.2 as int) == secs / 86400
}

/// The calendar date and time of day of a Unix timestamp (after the civil-from-days
/// algorithm of https://howardhinnant.github.io/date_algorithms.html).
pub fn epoch_to_datetime(secs: u64) -> (r: (i32, u32, u32, u32, u32, u32))
    ensures
        is_datetime_of(secs, r),
{
    let days: u64 = secs / 86400;
    let time_secs: u64 = secs % 86400;
    let hours: u32 = (time_secs / 3600) as u32;
    let remaining_secs: u32 = (time_secs % 3600) as u32;
    let minutes: u32 = remaining_secs / 60;
    let seconds: u32 = remaining_secs % 60;
    assert((secs % 86400) % 3600 == secs % 3600) by (nonlinear_arith);
    assert((secs % 3600) % 60 == secs % 60) by (nonlinear_arith);

    let z: u64 = days + 719468;
    let era: u64 = z / 146097;
    let doe: u64 = z - era * 146097;
    let yoe: u64 = (doe - doe / 1460 + doe / 36524 - doe / 146096) / 365;
    proof {
        lemma_year_of_era(doe as int);
    }
    let doy: u64 = doe - (365 * yoe + yoe / 4 - yoe / 100);
    let mp: u64 = (5 * doy + 2) / 153;
    proof {
        lemma_month_of_year(doy as int);
    }
    let d: u64 = doy - (153 * mp + 2) / 5 + 1;
    let m: u64 = if mp < 10 { mp + 3 } else { mp - 9 };
    let y: u64 = yoe + era * 400 + if mp >= 10 { 1 } else { 0 };
    proof {
        lemma_civil(era as int, yoe as int, mp as int, d as int);
        lemma_year_length(era as int, yoe as int);
        assert(is_valid_date(y as int, m as int, d as int));
        assert(y >= 1970);
        assert(days_since_epoch(y as int, m as int, d as int) == days as int);
    }
    let r = (y as i32, m as u32, d as u32, hours, minutes, seconds);
    assert(r.1 as int == m as int && r.2 as int == d as int);
    assert(is_valid_date(y as int, r.1 as int, r.2 as int));
    r
}

proof fn lemma_day_of_year_bounds(y: int, m: int, d: int)
    requires is_valid_date(y, m, d),
    ensures
        0 <= days_before_month(y, m) + d - 1 < 365 + (if is_leap_year(y) { 1int } else { 0 }),
        forall|m2: int, d2: int| #![auto] is_valid_date(y, m2, d2) && m < m2 ==>
            days_before_month(y, m) + d < days_before_month(y, m2) + d2,
{
}

proof fn lemma_year_start_increasing(y1: int, y2: int)
    requires 0 <= y1 < y2,
    ensures days_before_year(y1) + 365 + (if is_leap_year(y1) { 1int } else { 0 }) <= days_before_year(y2),
    decreases y2 - y1,
{
    lemma_next_year(y1);
    if y2 > y1 + 1 {
        lemma_year_start_increasing(y1 + 1, y2);
        lemma_next_year(y1 + 1);
    }
}

/// Two valid calendar dates (from year 0 on) with the same day number are the same date.
pub proof fn lemma_date_unique(y1: int, m1: int, d1: int, y2: int, m2: int, d2: int)
    requires
        y1 >= 0, y2 >= 0,
        is_valid_date(y1, m1, d1),
        is_valid_date(y2, m2, d2),
        days_since_epoch(y1, m1, d1) == days_since_epoch(y2, m2, d2),
    ensures
        y1 == y2 && m1 == m2 && d1 == d2,
{
    lemma_day_of_year_bounds(y1, m1, d1);
    lemma_day_of_year_bounds(y2, m2, d2);
    if y1 < y2 {
        lemma_year_start_increasing(y1, y2);
    } else if y2 < y1 {
        lemma_year_start_increasing(y2, y1);
    }
}


// ---------------------------------------------------------------------------
// Which rows a listing selects
// ---------------------------------------------------------------------------

/// Whether `tags` includes one of `sel`.
pub open spec fn shares_tag(tags: Seq<RetentionTag>, sel: Seq<RetentionTag>) -> bool {
    exists|k: int| 0 <= k < sel.len() && tags.contains(#[trigger] sel[k])
}

/// Whether a row's tags include one of the selected tags.
pub open spec fn selected_by_tag(tags: Seq<RetentionTag>, select: Option<Seq<RetentionTag>>) -> bool {
    match select {
        Some(sel) => shares_tag(tags, sel),
        None => false,
    }
}

/// One row of the listing: the index under the cursor selects the row when equal to it,
/// and is passed when equal to or below it; a row is also selected when its tags include
/// a selected tag. The cursor is consulted on every row and moves at most one index.
pub open spec fn list_step(
    tags: Seq<RetentionTag>,
    i: int,
    indexes: Seq<usize>,
    k: int,
    select: Option<Seq<RetentionTag>>,
) -> (bool, int) {
    let by_tag = selected_by_tag(tags, select);
    if 0 <= k < indexes.len() {
        if indexes[k] == i {
            (true, k + 1)
        } else if indexes[k] < i {
            (by_tag, k + 1)
        } else {
            (by_tag, k)
        }
    } else {
        (by_tag, k)
    }
}

/// The selection of the first `n` rows and the index cursor after them.
pub open spec fn list_selection(
    rows: Seq<Seq<RetentionTag>>,
    indexes: Seq<usize>,
    select: Option<Seq<RetentionTag>>,
    n: nat,
) -> (Seq<bool>, int)
    decreases n,
{
    if n == 0 {
        (Seq::empty(), 0)
    } else {
        let prev = list_selection(rows, indexes, select, (n - 1) as nat);
        let step = list_step(rows[n - 1], n - 1, indexes, prev.1, select);
        (prev.0.push(step.0), step.1)
    }
}

pub open spec fn opt_seq<T>(v: Option<Vec<T>>) -> Option<Seq<T>> {
    match v {
        Some(v) => Some(v@),
        None => None,
    }
}

pub open spec fn flat_indexes(v: Option<Vec<usize>>) -> Seq<usize> {
    match v {
        Some(v) => v@,
        None => Seq::empty(),
    }
}

/// The tags of each row, taken from the metadata entry at the same position.
pub open spec fn row_tags(metadata: Seq<MetaView>) -> Seq<Seq<RetentionTag>> {
    metadata.map_values(|m: MetaView| m.1)
}

proof fn lemma_list_selection_len(
    rows: Seq<Seq<RetentionTag>>,
    indexes: Seq<usize>,
    select: Option<Seq<RetentionTag>>,
    n: nat,
)
    ensures
        list_selection(rows, indexes, select, n).0.len() == n,
    decreases n,
{
    if n > 0 {
        lemma_list_selection_len(rows, indexes, select, (n - 1) as nat);
    }
}

/// One line of the listing.
pub struct ListRow {
    pub index: usize,
    pub timestamp: u64,
    pub datetime: (i32, u32, u32, u32, u32, u32),
    pub tags_mask: String,
    pub week: u64,
    pub is_selected: bool,
    pub is_latest: bool,
}

/// Whether the selection by tags holds for a row.
fn row_selected_by_tag(tags: &[RetentionTag], select: &Option<Vec<RetentionTag>>) -> (r: bool)
    ensures
        r == selected_by_tag(tags@, opt_seq(*select)),
{
    match select {
        None => false,
        Some(sel) => {
            let mut k: usize = 0;
            assert(opt_seq(*select) == Some(sel@));
            while k < sel.len()
                invariant
                    opt_seq(*select) == Some(sel@),
                    0 <= k <= sel@.len(),
                    forall|j: int| 0 <= j < k ==> !tags@.contains(#[trigger] sel@[j]),
                decreases sel@.len() - k,
            {
                if slice_contains(tags, sel[k]) {
                    assert(tags@.contains(sel@[k as int]));
                    assert(shares_tag(tags@, sel@));
                    return true;
                }
                k = k + 1;
            }
            false
        },
    }
}

/// The rows of the listing: for each snapshot (newest first) its index, timestamp, date,
/// tag mask (from the metadata entry at the same position), week number, whether the
/// selection picks it, and whether it is the latest snapshot.
pub fn list_rows(
    snapshots: &[u64],
    metadata: &[SnapshotMetaData],
    select_indexes: Option<Vec<usize>>,
    select_tags: Option<Vec<RetentionTag>>,
    latest: Option<u64>,
) -> (r: Vec<ListRow>)
    requires
        metadata@.len() >= snapshots@.len(),
    ensures
        r@.len() == snapshots@.len(),
        forall|i: int|
            #![trigger r@[i]]
            0 <= i < r@.len() ==> {
                let row = r@[i];
                &&& row.index == i
                &&& row.timestamp == snapshots@[i]
                &&& is_datetime_of(snapshots@[i], row.datetime)
                &&& row.tags_mask@ == tags_mask(metas_view(metadata@)[i].1)
                &&& row.week == snapshots@[i] / WEEK_IN_SECONDS
                &&& row.is_selected == list_selection(
                    row_tags(metas_view(metadata@)),
                    flat_indexes(select_indexes),
                    opt_seq(select_tags),
                    snapshots@.len(),
                ).0[i]
                &&& row.is_latest == (latest == Some(snapshots@[i]))
            },
        strictly_ascending(flat_indexes(select_indexes)) ==> forall|i: int|
            #![trigger r@[i]]
            0 <= i < r@.len() ==> (r@[i].is_selected <==> (flat_indexes(select_indexes).contains(i as usize)
                || selected_by_tag(metas_view(metadata@)[i].1, opt_seq(select_tags)))),
{
    let ghost rows = row_tags(metas_view(metadata@));
    let ghost idx = flat_indexes(select_indexes);
    let ghost sel = opt_seq(select_tags);
    let indexes: Vec<usize> = match select_indexes {
        Some(v) => v,
        None => Vec::new(),
    };
    let mut out: Vec<ListRow> = Vec::new();
    let mut k: usize = 0;
    let mut i: usize = 0;
    while i < snapshots.len()
        invariant
            metadata@.len() >= snapshots@.len(),
            rows == row_tags(metas_view(metadata@)),
            idx == indexes@,
            sel == opt_seq(select_tags),
            0 <= i <= snapshots@.len(),
            out@.len() == i,
            k <= indexes@.len(),
            list_selection(rows, idx, sel, i as nat).1 == k,
            forall|j: int|
                #![trigger out@[j]]
                0 <= j < i ==> {
                    let row = out@[j];
                    &&& row.index == j
                    &&& row.timestamp == snapshots@[j]
                    &&& is_datetime_of(snapshots@[j], row.datetime)
                    &&& row.tags_mask@ == tags_mask(metas_view(metadata@)[j].1)
                    &&& row.week == snapshots@[j] / WEEK_IN_SECONDS
                    &&& row.is_selected == list_selection(rows, idx, sel, i as nat).0[j]
                    &&& row.is_latest == (latest == Some(snapshots@[j]))
                },
        decreases snapshots@.len() - i,
    {
        let snapshot = snapshots[i];
        let tags = metadata[i].tags();
        assert(tags@ == rows[i as int]);
        let mut is_selected = row_selected_by_tag(tags, &select_tags);
        if k < indexes.len() {
            let idx_k = indexes[k];
            if idx_k == i {
                k = k + 1;
                is_selected = true;
            } else if idx_k < i {
                k = k + 1;
            }
        }
        let ghost prev = list_selection(rows, idx, sel, i as nat);
        proof {
            lemma_list_selection_len(rows, idx, sel, i as nat);
        }
        assert(list_selection(rows, idx, sel, (i + 1) as nat) == (prev.0.push(is_selected), k as int));
        assert forall|j: int| 0 <= j < i implies list_selection(rows, idx, sel, (i + 1) as nat).0[j] == prev.0[j] by {
        }
        let row = ListRow {
            index: i,
            timestamp: snapshot,
            datetime: epoch_to_datetime(snapshot),
            tags_mask: RetentionTag::get_tags_mask(tags),
            week: snapshot / WEEK_IN_SECONDS,
            is_selected,
            is_latest: match latest {
                Some(l) => l == snapshot,
                None => false,
            },
        };
        out.push(row);
        i = i + 1;
    }
    proof {
        if strictly_ascending(idx) {
            assert forall|j: int| 0 <= j < out@.len() implies (out@[j].is_selected <==> (idx.contains(j as usize)
                || selected_by_tag(metas_view(metadata@)[j].1, sel))) by {
                lemma_list_selects_listed_indexes(rows.take(snapshots@.len() as int), idx, sel, j);
                assert(rows.take(snapshots@.len() as int)[j] == metas_view(metadata@)[j].1);
                lemma_list_selection_prefix(rows, idx, sel, snapshots@.len());
            }
        }
    }
    out
}

/// The colour escape that starts a row: yellow on blue for a selected row, cyan for the
/// latest snapshot, none otherwise.
pub open spec fn row_colour(row: ListRow) -> Seq<char> {
    if row.is_selected {
        "\x1b[33;44m"@
    } else if row.is_latest {
        "\x1b[36m"@
    } else {
        Seq::empty()
    }
}

/// The fields of a row after the host name: tag mask (6 wide), index (3 wide), date and
/// time zero-padded, week number (5 wide), timestamp, and `[L]` for the latest snapshot,
/// separated by spaces and followed by one.
pub open spec fn row_fields(row: ListRow) -> Seq<char> {
    " "@ + pad_right(row.tags_mask@, 6) + " "@ + pad_right(decimal_digits(row.index as nat), 3) + " "@
        + signed_zero_padded(row.datetime.0 as int, 4) + "-"@ + zero_pad(decimal_digits(row.datetime.1 as nat), 2)
        + "-"@ + zero_pad(decimal_digits(row.datetime.2 as nat), 2) + " "@ + zero_pad(
        decimal_digits(row.datetime.3 as nat),
        2,
    ) + ":"@ + zero_pad(decimal_digits(row.datetime.4 as nat), 2) + ":"@ + zero_pad(
        decimal_digits(row.datetime.5 as nat),
        2,
    ) + " "@ + pad_right(decimal_digits(row.week as nat), 5) + " "@ + decimal_digits(row.timestamp as nat) + " "@
        + (if row.is_latest { "[L]"@ } else { Seq::empty() }) + " "@
}

/// The end of a row's line: a colour reset when the row is coloured, then the line break.
pub open spec fn row_end(row: ListRow) -> Seq<char> {
    (if row.is_selected || row.is_latest {
        "\x1b[0m"@
    } else {
        Seq::empty()
    }) + "\n"@
}

/// The printed line of a row: its colour, the host name (10 wide), its fields, and its end.
pub open spec fn list_line_text(hostname: Seq<char>, row: ListRow) -> Seq<char> {
    row_colour(row) + (pad_right(hostname, 10) + row_fields(row)) + row_end(row)
}

/// The colour of a listed line: a selected row starts yellow on blue whether or not it is
/// the latest; the latest row, when not selected, starts cyan; any other row starts with
/// the host name itself. A coloured line ends by resetting the colour, then the line break.
#[verifier::spinoff_prover]
pub proof fn lemma_list_line_colour(hostname: Seq<char>, row: ListRow)
    ensures
        row.is_selected ==> list_line_text(hostname, row).take(8) == seq!['\x1b', '[', '3', '3', ';', '4', '4', 'm'],
        row.is_latest && !row.is_selected ==> list_line_text(hostname, row).take(5) == seq!['\x1b', '[', '3', '6', 'm'],
        !row.is_latest && !row.is_selected ==> list_line_text(hostname, row).take(hostname.len() as int) == hostname,
        row.is_selected || row.is_latest ==> list_line_text(hostname, row).skip(
            list_line_text(hostname, row).len() - 5,
        ) == seq!['\x1b', '[', '0', 'm', '\n'],
{
    reveal_strlit("\x1b[33;44m");
    reveal_strlit("\x1b[36m");
    reveal_strlit("\x1b[0m");
    reveal_strlit("\n");
    let t = list_line_text(hostname, row);
    let c = row_colour(row);
    let body = pad_right(hostname, 10) + row_fields(row);
    let e = row_end(row);
    assert(t == c + body + e);
    if row.is_selected {
        assert(c.len() == 8);
        assert(t.take(8) =~= c);
    } else if row.is_latest {
        assert(c.len() == 5);
        assert(t.take(5) =~= c);
    } else {
        assert(c.len() == 0);
        assert(pad_right(hostname, 10).len() >= hostname.len());
        assert(t.take(hostname.len() as int) =~= hostname);
    }
    if row.is_selected || row.is_latest {
        assert(e =~= seq!['\x1b', '[', '0', 'm', '\n']);
        assert(t.skip(t.len() - 5) =~= e);
    }
}

/// The printed line of a row of the listing.
pub fn list_line(hostname: &str, row: &ListRow) -> (r: String)
    ensures
        r@ == list_line_text(hostname@, *row),
{
    proof {
        reveal_strlit("\x1b[33;44m");
        reveal_strlit("\x1b[36m");
        reveal_strlit("\x1b[");
        reveal_strlit(";");
        reveal_strlit("m");
    }
    let mut out: Vec<char> = Vec::new();
    if row.is_selected {
        push_all(&mut out, &chars_of("\x1b["));
        push_all(&mut out, &chars_of(Colour::Yellow.fg_code()));
        push_all(&mut out, &chars_of(";"));
        push_all(&mut out, &chars_of(Colour::Blue.bg_code()));
        push_all(&mut out, &chars_of("m"));
    } else if row.is_latest {
        push_all(&mut out, &chars_of("\x1b["));
        push_all(&mut out, &chars_of(Colour::Cyan.fg_code()));
        push_all(&mut out, &chars_of("m"));
    }
    assert(out@ =~= row_colour(*row));
    let ghost colour = out@;
    let mut f: Vec<char> = Vec::new();
    push_all(&mut f, &chars_of(" "));
    push_padded_right(&mut f, &chars_of(row.tags_mask.as_str()), 6);
    push_all(&mut f, &chars_of(" "));
    push_padded_right(&mut f, &decimal_chars(row.index as u64), 3);
    push_all(&mut f, &chars_of(" "));
    push_signed_zero_padded(&mut f, row.datetime.0 as i64, 4);
    push_all(&mut f, &chars_of("-"));
    push_zero_padded(&mut f, &decimal_chars(row.datetime.1 as u64), 2);
    push_all(&mut f, &chars_of("-"));
    push_zero_padded(&mut f, &decimal_chars(row.datetime.2 as u64), 2);
    push_all(&mut f, &chars_of(" "));
    push_zero_padded(&mut f, &decimal_chars(row.datetime.3 as u64), 2);
    push_all(&mut f, &chars_of(":"));
    push_zero_padded(&mut f, &decimal_chars(row.datetime.4 as u64), 2);
    push_all(&mut f, &chars_of(":"));
    push_zero_padded(&mut f, &decimal_chars(row.datetime.5 as u64), 2);
    push_all(&mut f, &chars_of(" "));
    push_padded_right(&mut f, &decimal_chars(row.week), 5);
    push_all(&mut f, &chars_of(" "));
    push_all(&mut f, &decimal_chars(row.timestamp));
    push_all(&mut f, &chars_of(" "));
    if row.is_latest {
        push_all(&mut f, &chars_of("[L]"));
    }
    push_all(&mut f, &chars_of(" "));
    assert(f@ =~= row_fields(*row));
    let mut e: Vec<char> = Vec::new();
    if row.is_selected || row.is_latest {
        push_all(&mut e, &chars_of("\x1b[0m"));
    }
    push_all(&mut e, &chars_of("\n"));
    assert(e@ =~= row_end(*row));
    push_padded_right(&mut out, &chars_of(hostname), 10);
    push_all(&mut out, &f);
    assert(out@ =~= colour + (pad_right(hostname@, 10) + row_fields(*row)));
    push_all(&mut out, &e);
    assert(out@ =~= list_line_text(hostname@, *row));
    string_from_chars(&out)
}

/// Strictly increasing.
pub open spec fn strictly_ascending(s: Seq<usize>) -> bool {
    forall|i: int, j: int| 0 <= i < j < s.len() ==> s[i] < s[j]
}

proof fn lemma_list_cursor(rows: Seq<Seq<RetentionTag>>, indexes: Seq<usize>, select: Option<Seq<RetentionTag>>, n: nat)
    requires
        strictly_ascending(indexes),
        n <= rows.len(),
        rows.len() <= usize::MAX,
    ensures
        ({
            let (flags, k) = list_selection(rows, indexes, select, n);
            &&& 0 <= k <= indexes.len()
            &&& flags.len() == n
            &&& forall|j: int| 0 <= j < k ==> indexes[j] < n
            &&& k < indexes.len() ==> indexes[k] >= n
            &&& forall|i: int| 0 <= i < n ==> (flags[i] <==> (indexes.contains(i as usize)
                || selected_by_tag(rows[i], select)))
        }),
    decreases n,
{
    if n > 0 {
        lemma_list_cursor(rows, indexes, select, (n - 1) as nat);
        let (prev, k) = list_selection(rows, indexes, select, (n - 1) as nat);
        let (flags, k2) = list_selection(rows, indexes, select, n);
        let i = n - 1;
        lemma_list_selection_len(rows, indexes, select, (n - 1) as nat);
        assert(flags == prev.push(list_step(rows[i], i, indexes, k, select).0));
        assert forall|x: int| 0 <= x < n implies (flags[x] <==> (indexes.contains(x as usize)
            || selected_by_tag(rows[x], select))) by {
            if x < i {
                assert(flags[x] == prev[x]);
            } else {
                if indexes.contains(x as usize) {
                    let j = choose|j: int| 0 <= j < indexes.len() && indexes[j] == x as usize;
                    if j < k {
                        assert(indexes[j] < n - 1);
                    } else if j > k {
                        assert(indexes[k] < indexes[j]);
                    }
                }
            }
        }
        assert forall|j: int| 0 <= j < k2 implies indexes[j] < n by {
            if j < k {
            }
        }
        if k2 < indexes.len() {
            if k2 > k {
                assert(indexes[k] < indexes[k2]);
            }
        }
    }
}

/// The selection of the first `n` rows depends on those rows alone.
proof fn lemma_list_selection_prefix(
    rows: Seq<Seq<RetentionTag>>,
    indexes: Seq<usize>,
    select: Option<Seq<RetentionTag>>,
    n: nat,
)
    requires
        n <= rows.len(),
    ensures
        list_selection(rows.take(n as int), indexes, select, n) == list_selection(rows, indexes, select, n),
{
    lemma_list_selection_prefix_from(rows, indexes, select, n, n);
}

proof fn lemma_list_selection_prefix_from(
    rows: Seq<Seq<RetentionTag>>,
    indexes: Seq<usize>,
    select: Option<Seq<RetentionTag>>,
    n: nat,
    m: nat,
)
    requires
        m <= n <= rows.len(),
    ensures
        list_selection(rows.take(n as int), indexes, select, m) == list_selection(rows, indexes, select, m),
    decreases m,
{
    if m > 0 {
        lemma_list_selection_prefix_from(rows, indexes, select, n, (m - 1) as nat);
        assert(rows.take(n as int)[m - 1] == rows[m - 1]);
    }
}

/// With strictly increasing indexes, a listing selects exactly the rows whose index is
/// listed and the rows whose tags include a selected tag.
pub proof fn lemma_list_selects_listed_indexes(
    rows: Seq<Seq<RetentionTag>>,
    indexes: Seq<usize>,
    select: Option<Seq<RetentionTag>>,
    i: int,
)
    requires
        strictly_ascending(indexes),
        0 <= i < rows.len(),
        rows.len() <= usize::MAX,
    ensures
        list_selection(rows, indexes, select, rows.len()).0[i] <==> (indexes.contains(i as usize)
            || selected_by_tag(rows[i], select)),
{
    lemma_list_cursor(rows, indexes, select, rows.len());
}

} // verus!
