//! What the append-only loss report holds, and the UTC clock its name uses.
//!
//! Each retained loss becomes one tab-separated line; an identical line is
//! written once per process. The report opens with a short preamble, and its
//! file name carries the UTC time it was created, the process id, and a
//! numeric suffix when that name is already taken. Reading the clock and
//! the environment, and the file system itself, are left to the caller.
use vstd::prelude::*;

use crate::conversion_map::Fidelity;
use crate::loss::{fidelity_file_word, fidelity_word, operation_word, LossOperation};
use crate::text::{decimal, decimal_string, owned, padded, padded_string, str_eq};

verus! {

// ---------------------------------------------------------------------------
// The proleptic Gregorian calendar
// ---------------------------------------------------------------------------

/// Whether `y` is a leap year.
pub open spec fn is_leap_year(y: int) -> bool {
    (y % 4 == 0 && y % 100 != 0) || y % 400 == 0
}

/// The number of days in year `y`.
pub open spec fn year_len(y: int) -> int {
    if is_leap_year(y) {
        366
    } else {
        365
    }
}

/// The number of leap years among `1..=n` (shifted consistently below 1).
pub open spec fn leaps_through(n: int) -> int {
    n / 4 - n / 100 + n / 400
}

/// The number of days from 1970-01-01 to the first day of year `y`
/// (negative before 1970).
pub open spec fn days_before_year(y: int) -> int {
    365 * (y - 1970) + leaps_through(y - 1) - leaps_through(1969)
}

/// The number of days in month `m` (1 to 12) of year `y`.
pub open spec fn month_len(y: int, m: int) -> int {
    if m == 2 {
        if is_leap_year(y) {
            29
        } else {
            28
        }
    } else if m == 4 || m == 6 || m == 9 || m == 11 {
        30
    } else {
        31
    }
}

/// The number of days in year `y` before month `m`.
pub open spec fn days_before_month(y: int, m: int) -> int
    decreases m,
{
    if m <= 1 {
        0
    } else {
        days_before_month(y, m - 1) + month_len(y, m - 1)
    }
}

/// `(y, m, d)` is the calendar date `days` days after 1970-01-01.
pub open spec fn is_civil_date(days: int, y: int, m: int, d: int) -> bool {
    &&& 1 <= m <= 12
    &&& 1 <= d <= month_len(y, m)
    &&& days == days_before_year(y) + days_before_month(y, m) + d - 1
}

/// The calendar date `days` days after 1970-01-01.
pub open spec fn civil_date(days: int) -> (int, int, int) {
    choose|t: (int, int, int)| is_civil_date(days, t.0, t.1, t.2)
}

/// The days before a year count one leap day for each leap year: moving to
/// the next year adds that year's length.
pub proof fn law_years_advance_by_their_length(y: int)
    ensures
        days_before_year(y + 1) == days_before_year(y) + year_len(y),
{
    assert(y / 4 - (y - 1) / 4 == if y % 4 == 0 {
        1int
    } else {
        0int
    });
    assert(y / 100 - (y - 1) / 100 == if y % 100 == 0 {
        1int
    } else {
        0int
    });
    assert(y / 400 - (y - 1) / 400 == if y % 400 == 0 {
        1int
    } else {
        0int
    });
}

/// Every 400 years hold exactly 146097 days.
pub proof fn lemma_era_length(y: int)
    ensures
        days_before_year(y + 400) == days_before_year(y) + 146097,
{
    let n = y - 1;
    assert((n + 400) / 4 == n / 4 + 100);
    assert((n + 400) / 100 == n / 100 + 4);
    assert((n + 400) / 400 == n / 400 + 1);
}

pub(crate) proof fn lemma_year_len_bounds(y: int)
    ensures
        365 <= year_len(y) <= 366,
        year_len(y) == days_before_month(y, 13),
        month_len(y, 12) == 31,
{
    reveal_with_fuel(days_before_month, 13);
}

pub(crate) proof fn lemma_days_before_month_grow(y: int, m: int)
    requires
        1 <= m <= 12,
    ensures
        days_before_month(y, m + 1) == days_before_month(y, m) + month_len(y, m),
        days_before_month(y, m) >= 0,
    decreases m,
{
    if m > 1 {
        lemma_days_before_month_grow(y, m - 1);
    }
}

pub(crate) proof fn lemma_days_before_year_increase(a: int, b: int)
    requires
        a <= b,
    ensures
        days_before_year(b) - days_before_year(a) >= 365 * (b - a),
    decreases b - a,
{
    if a < b {
        lemma_days_before_year_increase(a, b - 1);
        law_years_advance_by_their_length(b - 1);
    }
}

pub(crate) proof fn lemma_days_before_month_increase(y: int, a: int, b: int)
    requires
        1 <= a <= b <= 13,
    ensures
        days_before_month(y, b) - days_before_month(y, a) >= 28 * (b - a),
    decreases b - a,
{
    if a < b {
        lemma_days_before_month_increase(y, a, b - 1);
        lemma_days_before_month_grow(y, b - 1);
    }
}

/// Each day has exactly one calendar date.
pub proof fn law_civil_date_unique(days: int, y1: int, m1: int, d1: int, y2: int, m2: int, d2: int)
    requires
        is_civil_date(days, y1, m1, d1),
        is_civil_date(days, y2, m2, d2),
    ensures
        y1 == y2 && m1 == m2 && d1 == d2,
{
    lemma_year_len_bounds(y1);
    lemma_year_len_bounds(y2);
    lemma_days_before_month_grow(y1, m1);
    lemma_days_before_month_grow(y2, m2);
    lemma_days_before_month_increase(y1, m1 + 1, 13);
    lemma_days_before_month_increase(y2, m2 + 1, 13);
    if y1 < y2 {
        lemma_days_before_year_increase(y1 + 1, y2);
        law_years_advance_by_their_length(y1);
        assert(false);
    } else if y2 < y1 {
        lemma_days_before_year_increase(y2 + 1, y1);
        law_years_advance_by_their_length(y2);
        assert(false);
    } else if m1 < m2 {
        lemma_days_before_month_increase(y1, m1 + 1, m2);
        assert(false);
    } else if m2 < m1 {
        lemma_days_before_month_increase(y1, m2 + 1, m1);
        assert(false);
    }
}

/// Every day from 1970-01-01 on has a calendar date.
pub(crate) proof fn lemma_civil_date_exists(days: nat)
    ensures
        is_civil_date(days as int, civil_date(days as int).0, civil_date(days as int).1, civil_date(days as int).2),
    decreases days,
{
    let t: (int, int, int) = if days == 0 {
        (1970, 1, 1)
    } else {
        lemma_civil_date_exists((days - 1) as nat);
        let (y, m, d) = civil_date(days - 1);
        lemma_year_len_bounds(y);
        lemma_days_before_month_grow(y, m);
        if d < month_len(y, m) {
            (y, m, d + 1)
        } else if m < 12 {
            (y, m + 1, 1)
        } else {
            law_years_advance_by_their_length(y);
            (y + 1, 1, 1)
        }
    };
    assert(is_civil_date(days as int, t.0, t.1, t.2));
}

/// Later days have later calendar dates.
pub(crate) proof fn lemma_civil_dates_advance(
    days1: int,
    y1: int,
    m1: int,
    d1: int,
    days2: int,
    y2: int,
    m2: int,
    d2: int,
)
    requires
        days1 < days2,
        is_civil_date(days1, y1, m1, d1),
        is_civil_date(days2, y2, m2, d2),
    ensures
        y1 < y2 || (y1 == y2 && m1 < m2) || (y1 == y2 && m1 == m2 && d1 < d2),
{
    lemma_year_len_bounds(y1);
    lemma_year_len_bounds(y2);
    lemma_days_before_month_grow(y1, m1);
    lemma_days_before_month_grow(y2, m2);
    lemma_days_before_month_increase(y1, m1 + 1, 13);
    lemma_days_before_month_increase(y2, m2 + 1, 13);
    if y2 < y1 {
        lemma_days_before_year_increase(y2 + 1, y1);
        law_years_advance_by_their_length(y2);
        assert(false);
    } else if y1 == y2 && m2 < m1 {
        lemma_days_before_month_increase(y1, m2 + 1, m1);
        assert(false);
    }
}

fn month_length(y: i64, m: u32) -> (r: u32)
    requires
        1 <= m <= 12,
    ensures
        r == month_len(y as int, m as int),
{
    if m == 2 {
        if (y % 4 == 0 && y % 100 != 0) || y % 400 == 0 {
            29
        } else {
            28
        }
    } else if m == 4 || m == 6 || m == 9 || m == 11 {
        30
    } else {
        31
    }
}

fn year_length(y: i64) -> (r: i64)
    ensures
        r == year_len(y as int),
{
    if (y % 4 == 0 && y % 100 != 0) || y % 400 == 0 {
        366
    } else {
        365
    }
}

/// The calendar date `days_since_epoch` days after 1970-01-01.
pub fn civil_from_days(days_since_epoch: i64) -> (r: (i64, u32, u32))
    ensures
        is_civil_date(days_since_epoch as int, r.0 as int, r.1 as int, r.2 as int),
        (r.0 as int, r.1 as int, r.2 as int) == civil_date(days_since_epoch as int),
        days_since_epoch >= 0 ==> r.0 >= 1970,
{
    let era: i64 = match days_since_epoch.checked_div_euclid(146097) {
        Some(q) => q,
        None => 0,
    };
    let mut rest: i64 = match days_since_epoch.checked_rem_euclid(146097) {
        Some(r) => r,
        None => 0,
    };
    assert(era == days_since_epoch as int / 146097);
    assert(rest == days_since_epoch as int % 146097);
    assert(-63200000000000 <= era <= 63200000000000) by (nonlinear_arith)
        requires
            era == days_since_epoch as int / 146097,
            i64::MIN <= days_since_epoch <= i64::MAX,
    {
        assert(era * 146097 <= days_since_epoch);
        assert(days_since_epoch < era * 146097 + 146097);
    }
    let mut year: i64 = 1970 + 400 * era;
    let ghost start = year as int;
    proof {
        lemma_era_length(start);
        assert(days_before_year(start) == 146097 * era) by {
            lemma_era_multiple(era as int);
        }
    }
    while rest >= year_length(year)
        invariant
            start <= year <= start + 400,
            0 <= rest,
            days_since_epoch as int == days_before_year(year as int) + rest,
            days_before_year(start + 400) == days_before_year(start) + 146097,
            rest < days_before_year(start + 400) - days_before_year(year as int),
            -25290000000000000 <= start <= 25290000000000000,
        decreases start + 400 - year,
    {
        let len = year_length(year);
        proof {
            law_years_advance_by_their_length(year as int);
            if year == start + 400 {
                assert(false);
            }
        }
        rest = rest - len;
        year = year + 1;
    }
    proof {
        lemma_year_len_bounds(year as int);
    }
    let mut month: u32 = 1;
    while rest >= month_length(year, month) as i64
        invariant
            1 <= month <= 12,
            0 <= rest,
            days_since_epoch as int == days_before_year(year as int) + days_before_month(
                year as int,
                month as int,
            ) + rest,
            rest < year_len(year as int) - days_before_month(year as int, month as int),
            year_len(year as int) == days_before_month(year as int, 13),
            month_len(year as int, 12) == 31,
        decreases 12 - month,
    {
        let len = month_length(year, month);
        proof {
            lemma_days_before_month_grow(year as int, month as int);
            if month == 12 {
                assert(false);
            }
        }
        rest = rest - len as i64;
        month = month + 1;
    }
    proof {
        lemma_days_before_month_grow(year as int, month as int);
        let t = (year as int, month as int, rest + 1);
        assert(is_civil_date(days_since_epoch as int, t.0, t.1, t.2));
        let c = civil_date(days_since_epoch as int);
        law_civil_date_unique(days_since_epoch as int, t.0, t.1, t.2, c.0, c.1, c.2);
        if days_since_epoch >= 0 {
            assert(era >= 0);
        }
    }
    (year, month, (rest + 1) as u32)
}

proof fn lemma_era_multiple(k: int)
    ensures
        days_before_year(1970 + 400 * k) == 146097 * k,
    decreases if k >= 0 {
        k
    } else {
        -k
    },
{
    if k > 0 {
        lemma_era_multiple(k - 1);
        lemma_era_length(1970 + 400 * (k - 1));
    } else if k < 0 {
        lemma_era_multiple(k + 1);
        lemma_era_length(1970 + 400 * k);
    }
}

// ---------------------------------------------------------------------------
// The UTC clock
// ---------------------------------------------------------------------------

/// `epoch_seconds` after 1970-01-01T00:00:00Z, written
/// `YYYY-MM-DDTHH:MM:SSZ`.
pub open spec fn timestamp_text(epoch_seconds: nat) -> Seq<char> {
    let days = epoch_seconds / 86400;
    let second_of_day = epoch_seconds % 86400;
    let (y, m, d) = civil_date(days as int);
    padded(y as nat, 4) + "-"@ + padded(m as nat, 2) + "-"@ + padded(d as nat, 2) + "T"@ + padded(
        second_of_day / 3600,
        2,
    ) + ":"@ + padded((second_of_day / 60) % 60, 2) + ":"@ + padded(second_of_day % 60, 2) + "Z"@
}

/// Formats a non-negative Unix timestamp in UTC.
pub fn utc_timestamp(epoch_seconds: u64) -> (r: String)
    ensures
        r@ == timestamp_text(epoch_seconds as nat),
{
    let days = epoch_seconds / 86400;
    let second_of_day = epoch_seconds % 86400;
    let (year, month, day) = civil_from_days(days as i64);
    let ghost t = civil_date(days as int);
    assert(year as int == t.0 && month as int == t.1 && day as int == t.2);
    assert(year >= 1970);
    let mut r = padded_string(year as u128, 4);
    r.append("-");
    let m = padded_string(month as u128, 2);
    r.append(m.as_str());
    r.append("-");
    let d = padded_string(day as u128, 2);
    r.append(d.as_str());
    r.append("T");
    let h = padded_string((second_of_day / 3600) as u128, 2);
    r.append(h.as_str());
    r.append(":");
    let mi = padded_string(((second_of_day / 60) % 60) as u128, 2);
    r.append(mi.as_str());
    r.append(":");
    let sec = padded_string((second_of_day % 60) as u128, 2);
    r.append(sec.as_str());
    r.append("Z");
    r
}

// ---------------------------------------------------------------------------
// Report contents
// ---------------------------------------------------------------------------

/// The occurrence facts one report line is rendered from, copied so that
/// nothing here refers back into the registry.
#[derive(Debug, Clone, PartialEq, Eq)]
pub struct LossFileEntry {
    pub uri: String,
    pub ids: String,
    pub stored_version: String,
    pub hli_version: String,
    pub operation: LossOperation,
    pub fidelity: Fidelity,
    pub path: String,
}

impl LossFileEntry {
    /// Copies the facts of one loss.
    pub fn new(
        uri: &str,
        ids: &str,
        stored_version: &str,
        hli_version: &str,
        operation: LossOperation,
        fidelity: Fidelity,
        path: &str,
    ) -> (r: LossFileEntry)
        ensures
            r.uri@ == uri@,
            r.ids@ == ids@,
            r.stored_version@ == stored_version@,
            r.hli_version@ == hli_version@,
            r.operation == operation,
            r.fidelity == fidelity,
            r.path@ == path@,
    {
        LossFileEntry {
            uri: owned(uri),
            ids: owned(ids),
            stored_version: owned(stored_version),
            hli_version: owned(hli_version),
            operation,
            fidelity,
            path: owned(path),
        }
    }
}

/// One report line: the facts, tab-separated, then a newline.
pub open spec fn line_text(e: LossFileEntry) -> Seq<char> {
    e.uri@ + "\t"@ + e.ids@ + "\t"@ + e.stored_version@ + "\t"@ + e.hli_version@ + "\t"@
        + operation_word(e.operation) + "\t"@ + fidelity_word(e.fidelity) + "\t"@ + e.path@
        + "\n"@
}

/// Renders one report line.
pub fn render(entry: &LossFileEntry) -> (r: String)
    ensures
        r@ == line_text(*entry),
{
    let mut r = entry.uri.clone();
    r.append("\t");
    r.append(entry.ids.as_str());
    r.append("\t");
    r.append(entry.stored_version.as_str());
    r.append("\t");
    r.append(entry.hli_version.as_str());
    r.append("\t");
    r.append(entry.operation.file_word());
    r.append("\t");
    r.append(fidelity_file_word(entry.fidelity));
    r.append("\t");
    r.append(entry.path.as_str());
    r.append("\n");
    r
}

/// The lines a report opens with.
pub open spec fn preamble_text(timestamp: Seq<char>, process_id: u32, hli_version: Seq<char>) -> Seq<
    char,
> {
    "# imas-mvdd loss log format 1\n# written "@ + timestamp + "\n# process "@ + decimal(
        process_id as nat,
    ) + "\n# hli-dd-version "@ + hli_version
        + "\nuri\tids\tstored-dd\thli-dd\toperation\tfidelity\tpath\n"@
}

/// Renders the lines a report opens with.
pub fn preamble(timestamp: &str, process_id: u32, hli_version: &str) -> (r: String)
    ensures
        r@ == preamble_text(timestamp@, process_id, hli_version@),
{
    let mut r = owned("# imas-mvdd loss log format 1\n# written ");
    r.append(timestamp);
    r.append("\n# process ");
    let p = decimal_string(process_id as u128);
    r.append(p.as_str());
    r.append("\n# hli-dd-version ");
    r.append(hli_version);
    r.append("\nuri\tids\tstored-dd\thli-dd\toperation\tfidelity\tpath\n");
    r
}

/// The name of a report: the UTC creation time, the process id, and, for
/// every attempt after the first, `-` and the attempt's number.
pub open spec fn log_name_text(timestamp: Seq<char>, process_id: u32, attempt: u32) -> Seq<char> {
    "imas-mvdd-loss-"@ + timestamp + "-"@ + decimal(process_id as nat) + (if attempt == 0 {
        Seq::<char>::empty()
    } else {
        "-"@ + decimal(attempt as nat)
    }) + ".txt"@
}

/// Names a report.
pub fn log_file_name(timestamp: &str, process_id: u32, attempt: u32) -> (r: String)
    ensures
        r@ == log_name_text(timestamp@, process_id, attempt),
{
    let mut r = owned("imas-mvdd-loss-");
    r.append(timestamp);
    r.append("-");
    let p = decimal_string(process_id as u128);
    r.append(p.as_str());
    if attempt != 0 {
        r.append("-");
        let a = decimal_string(attempt as u128);
        r.append(a.as_str());
    }
    r.append(".txt");
    r
}

/// The lines already written by this process, each once.
#[derive(Debug)]
pub struct WrittenLines {
    lines: Vec<String>,
}

impl View for WrittenLines {
    type V = Set<Seq<char>>;

    closed spec fn view(&self) -> Set<Seq<char>> {
        Set::new(
            |s: Seq<char>| exists|k: int| 0 <= k < self.lines@.len() && #[trigger] self.lines@[k]@ == s,
        )
    }
}

impl WrittenLines {
    /// No line written yet.
    pub fn new() -> (r: WrittenLines)
        ensures
            r@ == Set::<Seq<char>>::empty(),
    {
        let r = WrittenLines { lines: Vec::new() };
        assert(r@ =~= Set::<Seq<char>>::empty());
        r
    }

    /// Records `line`, reporting whether it is new: only a line identical to
    /// one already written is a repeat.
    pub fn insert(&mut self, line: &str) -> (is_new: bool)
        ensures
            is_new == !old(self)@.contains(line@),
            final(self)@ == old(self)@.insert(line@),
    {
        let ghost before = self@;
        let mut i: usize = 0;
        while i < self.lines.len()
            invariant
                i <= self.lines@.len(),
                before == self@,
                forall|k: int| 0 <= k < i ==> self.lines@[k]@ != line@,
            decreases self.lines@.len() - i,
        {
            if str_eq(self.lines[i].as_str(), line) {
                assert(before.contains(line@));
                assert(before.insert(line@) =~= before);
                return false;
            }
            i = i + 1;
        }
        assert(!before.contains(line@));
        let ghost old_lines = self.lines@;
        self.lines.push(owned(line));
        assert(self.lines@[old_lines.len() as int]@ == line@);
        assert forall|s: Seq<char>| self@.contains(s) == before.insert(line@).contains(s) by {
            if before.contains(s) {
                let k = choose|k: int| 0 <= k < old_lines.len() && #[trigger] old_lines[k]@ == s;
                assert(self.lines@[k]@ == s);
            }
            if self@.contains(s) && s != line@ {
                let k = choose|k: int| 0 <= k < self.lines@.len() && #[trigger] self.lines@[k]@ == s;
                assert(k < old_lines.len());
                assert(old_lines[k]@ == s);
            }
        }
        assert(self@ =~= before.insert(line@));
        true
    }
}

/// Writing a line is idempotent: a repeat of a written line is never new
/// and changes nothing, and a line that differs anywhere is new.
pub proof fn law_only_identical_lines_repeat(written: Set<Seq<char>>, a: Seq<char>, b: Seq<char>)
    ensures
        written.insert(a).contains(a),
        written.insert(a).insert(a) == written.insert(a),
        a != b && !written.contains(b) ==> !written.insert(a).contains(b),
{
    assert(written.insert(a).insert(a) =~= written.insert(a));
}

} // verus!
