//! Writing-streak bookkeeping kept in the settings table:
//!   - `writing.last_date`: `YYYY-MM-DD` of the last day the user wrote;
//!   - `writing.current_streak`: consecutive days up to that date;
//!   - `writing.longest_streak`: the historical maximum.
//! Dates are handled as day numbers (days from the common era); reading
//! and writing the settings is the caller's.
use vstd::prelude::*;
use vstd::string::*;

use chrono::{Datelike, NaiveDate};

use crate::segments::{decimal, push_decimal};
use crate::text::{chars_of, push_char};

verus! {

/// Streak counters of the user.
#[derive(Debug, Clone, PartialEq, Eq)]
pub struct WritingStats {
    pub current_streak: u32,
    pub longest_streak: u32,
    pub last_writing_date: Option<String>,
    pub goal_met_streak: u32,
}

/// One day of the activity chart.
#[derive(Debug, Clone, PartialEq, Eq)]
pub struct DailyWriting {
    pub date: String,
    pub words: u32,
    pub sessions: u32,
    pub goal_words: Option<u32>,
    pub goal_met: bool,
}

/// `NaiveDate::parse_from_str(s, "%Y-%m-%d")`, the date taken as its day
/// number (`Datelike::num_days_from_ce`); `None` when it does not parse.
pub uninterp spec fn parsed_day(s: Seq<char>) -> Option<i32>;

/// Parse an ISO date into its day number.
#[verifier::external_body]
pub(crate) fn parse_day(s: &str) -> (r: Option<i32>)
    ensures
        r == parsed_day(s@),
{
    match NaiveDate::parse_from_str(s, "%Y-%m-%d") {
        Ok(d) => Some(d.num_days_from_ce()),
        Err(_) => None,
    }
}

/// The proleptic Gregorian date `(year, month, day)` of a day number,
/// January 1 of year 1 being day 1 and year 0 the year before it: days
/// are counted in 400-year eras of 146097 days, years taken from March.
pub open spec fn civil_of_day(day: int) -> (int, int, int) {
    let z = day + 305;
    let era = z / 146097;
    let doe = z - era * 146097;
    let yoe = (doe - doe / 1460 + doe / 36524 - doe / 146096) / 365;
    let doy = doe - (365 * yoe + yoe / 4 - yoe / 100);
    let mp = (5 * doy + 2) / 153;
    let d = doy - (153 * mp + 2) / 5 + 1;
    let m = if mp < 10 {
        mp + 3
    } else {
        mp - 9
    };
    let y = yoe + era * 400 + if m <= 2 {
        1int
    } else {
        0int
    };
    (y, m, d)
}

/// `NaiveDate::from_num_days_from_ce_opt(day)` as `(year, month, day)`:
/// the civil date of the day when its year lies in chrono's range, from
/// -262143 to 262142, else `None`.
pub open spec fn day_ymd(day: i32) -> Option<(i32, u32, u32)> {
    let (y, m, d) = civil_of_day(day as int);
    if -262143 <= y <= 262142 {
        Some((y as i32, m as u32, d as u32))
    } else {
        None
    }
}

/// The calendar date of a day number.
#[verifier::external_body]
pub(crate) fn ymd_of_day(day: i32) -> (r: Option<(i32, u32, u32)>)
    ensures
        r == day_ymd(day),
{
    match NaiveDate::from_num_days_from_ce_opt(day) {
        Some(d) => Some((d.year(), d.month(), d.day())),
        None => None,
    }
}

/// The ASCII digits.
pub open spec fn is_digit(c: char) -> bool {
    '0' <= c && c <= '9'
}

/// The value of a string of decimal digits.
pub open spec fn digits_value(s: Seq<char>) -> nat
    decreases s.len(),
{
    if s.len() == 0 {
        0
    } else {
        digits_value(s.drop_last()) * 10 + ((s.last() as u32) - 48) as nat
    }
}

/// A text without its leading `+`, if any.
pub open spec fn after_sign(s: Seq<char>) -> Seq<char> {
    if s.len() > 0 && s[0] == '+' {
        s.drop_first()
    } else {
        s
    }
}

/// Every character of the text is an ASCII digit.
pub open spec fn all_digits(t: Seq<char>) -> bool {
    forall|i: int| 0 <= i < t.len() ==> is_digit(#[trigger] t[i])
}

/// `u32::from_str`: an optional `+`, then one or more ASCII digits whose
/// value fits in 32 bits.
pub open spec fn parsed_u32(s: Seq<char>) -> Option<u32> {
    let t = after_sign(s);
    if t.len() > 0 && all_digits(t) && digits_value(t) <= u32::MAX {
        Some(digits_value(t) as u32)
    } else {
        None
    }
}

proof fn lemma_digits_prefix_bound(s: Seq<char>, k: int)
    requires
        0 <= k <= s.len(),
        forall|i: int| 0 <= i < s.len() ==> is_digit(#[trigger] s[i]),
    ensures
        digits_value(s.take(k)) <= digits_value(s),
    decreases s.len() - k,
{
    if k < s.len() {
        lemma_digits_prefix_bound(s.drop_last(), k);
        assert(s.drop_last().take(k) =~= s.take(k));
        assert forall|i: int| 0 <= i < s.drop_last().len() implies is_digit(#[trigger] s.drop_last()[i]) by {
            assert(s.drop_last()[i] == s[i]);
        }
    } else {
        assert(s.take(k) =~= s);
    }
}

/// Parse a stored counter (`str::parse::<u32>`).
pub fn parse_u32(s: &str) -> (r: Option<u32>)
    ensures
        r == parsed_u32(s@),
{
    let v = chars_of(s);
    let start: usize = if v.len() > 0 && v[0] == '+' {
        1
    } else {
        0
    };
    let ghost t = after_sign(s@);
    assert(t =~= v@.skip(start as int));
    if start >= v.len() {
        return None;
    }
    let mut acc: u64 = 0;
    let mut i = start;
    while i < v.len()
        invariant
            start <= i <= v@.len(),
            v@ == s@,
            t == after_sign(s@),
            t =~= v@.skip(start as int),
            forall|j: int| start <= j < i ==> is_digit(#[trigger] v@[j]),
            acc == digits_value(v@.subrange(start as int, i as int)),
            acc <= u32::MAX,
        decreases v@.len() - i,
    {
        let c = v[i];
        if !('0' <= c && c <= '9') {
            proof {
                assert(t[i - start] == c);
                assert(!is_digit(t[i - start]));
                assert(!all_digits(t));
                assert(parsed_u32(s@) is None);
            }
            return None;
        }
        let d = (c as u32 - 48) as u64;
        assert(v@.subrange(start as int, i + 1).drop_last() =~= v@.subrange(start as int, i as int));
        let next = acc * 10 + d;
        if next > 0xFFFF_FFFF {
            proof {
                let pre = v@.subrange(start as int, i + 1);
                assert(digits_value(pre) == next);
                if all_digits(t) {
                    assert(t.take(i + 1 - start) =~= pre);
                    lemma_digits_prefix_bound(t, i + 1 - start);
                    assert(digits_value(t) > u32::MAX);
                }
                assert(parsed_u32(s@) is None);
            }
            return None;
        }
        acc = next;
        i += 1;
    }
    proof {
        assert(v@.subrange(start as int, v@.len() as int) =~= t);
        assert forall|j: int| 0 <= j < t.len() implies is_digit(#[trigger] t[j]) by {
            assert(t[j] == v@[j + start]);
        }
        assert(all_digits(t));
    }
    Some(acc as u32)
}

/// The streak after writing today: kept (at least one) when the last day
/// was today, extended when it was yesterday, restarted otherwise.
pub open spec fn streak_after_writing(last: Option<i32>, stored: u32, today: i32) -> int {
    match last {
        Some(d) => if d == today {
            if stored >= 1 {
                stored as int
            } else {
                1
            }
        } else if d + 1 == today {
            stored + 1
        } else {
            1
        },
        None => 1,
    }
}

/// The counters after writing today: `(current, longest)`.
pub fn record_activity_counts(last: Option<i32>, stored: u32, longest: u32, today: i32) -> (r: (u32, u32))
    requires
        streak_after_writing(last, stored, today) <= u32::MAX,
    ensures
        r.0 == streak_after_writing(last, stored, today),
        r.1 == if r.0 > longest {
            r.0
        } else {
            longest
        },
{
    let s: u32 = match last {
        Some(d) => {
            if d == today {
                if stored >= 1 {
                    stored
                } else {
                    1
                }
            } else if (d as i64) + 1 == today as i64 {
                stored + 1
            } else {
                1
            }
        },
        None => 1,
    };
    let l = if s > longest {
        s
    } else {
        longest
    };
    (s, l)
}

/// The streak as reported on a read: the stored one while the last day
/// is today or yesterday (or later), zero otherwise.
pub open spec fn reported_streak(last: Option<i32>, stored: u32, today: i32) -> u32 {
    match last {
        Some(d) => if today - d <= 1 {
            stored
        } else {
            0
        },
        None => 0,
    }
}

/// The streak reported on a read.
pub fn current_streak(last: Option<i32>, stored: u32, today: i32) -> (r: u32)
    ensures
        r == reported_streak(last, stored, today),
{
    match last {
        Some(d) => {
            if (today as i64) - (d as i64) <= 1 {
                stored
            } else {
                0
            }
        },
        None => 0,
    }
}

/// Consecutive days ending at the most recent goal-met day, walking the
/// days newest first from `k` with `expected` the day to meet next.
pub open spec fn goal_run(days: Seq<i32>, k: int, expected: int) -> nat
    decreases days.len() - k,
{
    if k < 0 || k >= days.len() {
        0
    } else if days[k] == expected {
        1 + goal_run(days, k + 1, expected - 1)
    } else if days[k] < expected {
        0
    } else {
        goal_run(days, k + 1, expected)
    }
}

/// The goal-met streak from the goal-met days (newest first): zero when
/// the newest is older than yesterday, else the run of consecutive days
/// ending at it.
pub open spec fn goal_met_streak(days: Seq<i32>, today: i32) -> nat {
    if days.len() == 0 || today - days[0] > 1 {
        0
    } else {
        goal_run(days, 0, days[0] as int)
    }
}

proof fn lemma_goal_run_bound(days: Seq<i32>, k: int, expected: int)
    ensures
        goal_run(days, k, expected) <= if 0 <= k <= days.len() {
            days.len() - k
        } else {
            0
        },
    decreases days.len() - k,
{
    if 0 <= k < days.len() {
        if days[k] == expected {
            lemma_goal_run_bound(days, k + 1, expected - 1);
        } else if days[k] >= expected {
            lemma_goal_run_bound(days, k + 1, expected);
        }
    }
}

/// Count the goal-met streak.
pub fn goal_met_streak_from(days: &Vec<i32>, today: i32) -> (r: u32)
    requires
        days@.len() <= u32::MAX,
    ensures
        r == goal_met_streak(days@, today),
{
    if days.len() == 0 {
        return 0;
    }
    if (today as i64) - (days[0] as i64) > 1 {
        return 0;
    }
    let mut streak: u32 = 0;
    let mut expected: i64 = days[0] as i64;
    let mut k: usize = 0;
    proof {
        lemma_goal_run_bound(days@, 0, days@[0] as int);
    }
    while k < days.len()
        invariant_except_break
            goal_run(days@, 0, days@[0] as int) == streak + goal_run(days@, k as int, expected as int),
        invariant
            k <= days@.len(),
            days@.len() <= u32::MAX,
            streak <= k,
            days@[0] as int - k <= expected <= days@[0] as int,
        ensures
            goal_run(days@, 0, days@[0] as int) == streak,
        decreases days@.len() - k,
    {
        let d = days[k] as i64;
        if d == expected {
            streak += 1;
            expected -= 1;
        } else if d < expected {
            break;
        }
        k += 1;
    }
    streak
}

/// `n` in decimal, zero-padded to `width` digits.
pub open spec fn padded(n: nat, width: nat) -> Seq<char> {
    let d = decimal(n);
    if d.len() >= width {
        d
    } else {
        Seq::new((width - d.len()) as nat, |i: int| '0') + d
    }
}

/// Append `n` zero-padded to `width` digits.
fn push_padded(out: &mut String, n: u32, width: usize)
    ensures
        final(out)@ == old(out)@ + padded(n as nat, width as nat),
{
    let mut digits = String::new();
    push_decimal(&mut digits, n as u128);
    let len = digits.as_str().unicode_len();
    let mut k = len;
    let ghost before = out@;
    while k < width
        invariant
            len <= k <= if width > len {
                width
            } else {
                len
            },
            out@ == before + Seq::new((k - len) as nat, |i: int| '0'),
        decreases width - k,
    {
        push_char(out, '0');
        assert(out@ =~= before + Seq::new((k + 1 - len) as nat, |i: int| '0'));
        k += 1;
    }
    out.append(digits.as_str());
    proof {
        assert(Seq::<char>::empty() + decimal(n as nat) =~= decimal(n as nat));
        if len >= width {
            assert(out@ =~= before + decimal(n as nat));
        }
    }
}

/// `YYYY-MM-DD` as `format!("{:04}-{:02}-{:02}")` writes it: the year
/// with a minus sign when negative, each part zero-padded.
pub open spec fn iso_date(y: i32, m: u32, d: u32) -> Seq<char> {
    let year = if y < 0 {
        seq!['-'] + padded((-y) as nat, 3)
    } else {
        padded(y as nat, 4)
    };
    year + seq!['-'] + padded(m as nat, 2) + seq!['-'] + padded(d as nat, 2)
}

/// Format a calendar date.
pub fn format_iso_date(y: i32, m: u32, d: u32) -> (r: String)
    ensures
        r@ == iso_date(y, m, d),
{
    let mut out = String::new();
    if y < 0 {
        push_char(&mut out, '-');
        let a = (-(y as i64)) as u32;
        push_padded(&mut out, a, 3);
    } else {
        push_padded(&mut out, y as u32, 4);
    }
    push_char(&mut out, '-');
    push_padded(&mut out, m, 2);
    push_char(&mut out, '-');
    push_padded(&mut out, d, 2);
    proof {
        let year = if y < 0 {
            seq!['-'] + padded((-y) as nat, 3)
        } else {
            padded(y as nat, 4)
        };
        assert(out@ =~= year + seq!['-'] + padded(m as nat, 2) + seq!['-'] + padded(d as nat, 2));
    }
    out
}

/// The window of the activity chart: clamped to one to 365 days.
pub open spec fn clamped_days(days: u32) -> u32 {
    if days < 1 {
        1
    } else if days > 365 {
        365
    } else {
        days
    }
}

/// Clamp the chart window.
pub fn clamp_days(days: u32) -> (r: u32)
    ensures
        r == clamped_days(days),
{
    if days < 1 {
        1
    } else if days > 365 {
        365
    } else {
        days
    }
}

/// The stored row of a date: the last one with that date, if any.
pub open spec fn row_for(rows: Seq<DailyWriting>, key: Seq<char>) -> Option<DailyWriting>
    decreases rows.len(),
{
    if rows.len() == 0 {
        None
    } else if rows.last().date@ == key {
        Some(rows.last())
    } else {
        row_for(rows.drop_last(), key)
    }
}

/// The chart entry of a day: its stored counts, or zeros.
pub open spec fn day_entry(rows: Seq<DailyWriting>, key: Seq<char>) -> (Seq<char>, u32, u32, Option<u32>, bool) {
    match row_for(rows, key) {
        Some(r) => (key, r.words, r.sessions, r.goal_words, r.goal_met),
        None => (key, 0, 0, None, false),
    }
}

/// A chart entry seen as plain values.
pub open spec fn entry_view(d: DailyWriting) -> (Seq<char>, u32, u32, Option<u32>, bool) {
    (d.date@, d.words, d.sessions, d.goal_words, d.goal_met)
}

/// The key of a day number.
pub open spec fn day_key(day: int) -> Seq<char> {
    match day_ymd(day as i32) {
        Some((y, m, d)) => iso_date(y, m, d),
        None => Seq::empty(),
    }
}

/// The chart: `days` entries from `start`, oldest first, each day's stored
/// counts or zeros.
pub fn pad_daily(rows: &Vec<DailyWriting>, start: i32, days: u32) -> (out: Vec<DailyWriting>)
    requires
        start + days <= i32::MAX,
    ensures
        out@.len() == days,
        forall|i: int|
            0 <= i < days ==> entry_view(#[trigger] out@[i]) == day_entry(rows@, day_key(start + i)),
{
    let mut out: Vec<DailyWriting> = Vec::new();
    let mut i: u32 = 0;
    while i < days
        invariant
            i <= days,
            start + days <= i32::MAX,
            out@.len() == i,
            forall|j: int|
                0 <= j < i ==> entry_view(#[trigger] out@[j]) == day_entry(rows@, day_key(start + j)),
        decreases days - i,
    {
        let day64: i64 = start as i64 + i as i64;
        let day: i32 = day64 as i32;
        assert(day == (start + i) as i32);
        let key = match ymd_of_day(day) {
            Some((y, m, d)) => format_iso_date(y, m, d),
            None => String::new(),
        };
        assert(key@ == day_key(start + i));
        let kv = chars_of(key.as_str());
        let mut k = rows.len();
        let mut found: Option<usize> = None;
        assert(rows@.take(k as int) =~= rows@);
        while k > 0
            invariant_except_break
                found is None,
            invariant
                k <= rows@.len(),
                kv@ == key@,
                row_for(rows@, key@) == row_for(rows@.take(k as int), key@),
            ensures
                match found {
                    Some(x) => x < rows@.len() && row_for(rows@, key@) == Some(rows@[x as int]),
                    None => row_for(rows@, key@) is None,
                },
            decreases k,
        {
            assert(rows@.take(k as int).drop_last() =~= rows@.take(k - 1));
            assert(rows@.take(k as int).last() == rows@[k - 1]);
            if crate::text::chars_eq(&chars_of(rows[k - 1].date.as_str()), &kv) {
                found = Some(k - 1);
                break;
            }
            k -= 1;
        }
        let entry = match found {
            Some(x) => DailyWriting {
                date: key,
                words: rows[x].words,
                sessions: rows[x].sessions,
                goal_words: rows[x].goal_words,
                goal_met: rows[x].goal_met,
            },
            None => DailyWriting { date: key, words: 0, sessions: 0, goal_words: None, goal_met: false },
        };
        out.push(entry);
        i += 1;
    }
    out
}

/// A stored counter: its number, or zero when absent or unreadable.
pub open spec fn stored_count(o: Option<Seq<char>>) -> u32 {
    match o {
        Some(s) => match parsed_u32(s) {
            Some(n) => n,
            None => 0,
        },
        None => 0,
    }
}

/// The day a stored date names, if it parses.
pub open spec fn stored_day(o: Option<Seq<char>>) -> Option<i32> {
    match o {
        Some(s) => parsed_day(s),
        None => None,
    }
}

/// The characters of an optional string.
pub open spec fn opt_text(o: Option<String>) -> Option<Seq<char>> {
    match o {
        Some(s) => Some(s@),
        None => None,
    }
}

/// Read a stored counter.
fn read_count(o: &Option<String>) -> (r: u32)
    ensures
        r == stored_count(opt_text(*o)),
{
    match o {
        Some(s) => match parse_u32(s.as_str()) {
            Some(n) => n,
            None => 0,
        },
        None => 0,
    }
}

/// Read a stored date.
fn read_day(o: &Option<String>) -> (r: Option<i32>)
    ensures
        r == stored_day(opt_text(*o)),
{
    match o {
        Some(s) => parse_day(s.as_str()),
        None => None,
    }
}

/// The counters after writing on day `today` (written `today_text`),
/// from the stored last date, current and longest streaks; `None` when
/// the extended streak would not fit in 32 bits.
pub fn stats_after_writing(
    last_date: &Option<String>,
    current: &Option<String>,
    longest: &Option<String>,
    today: i32,
    today_text: &str,
    goal_streak: u32,
) -> (r: Option<WritingStats>)
    ensures
        ({
            let s = streak_after_writing(
                stored_day(opt_text(*last_date)),
                stored_count(opt_text(*current)),
                today,
            );
            let l = stored_count(opt_text(*longest));
            match r {
                Some(w) => s <= u32::MAX && w.current_streak == s && w.longest_streak == (if s > l {
                    s
                } else {
                    l as int
                }) && opt_text(w.last_writing_date) == Some(today_text@) && w.goal_met_streak
                    == goal_streak,
                None => s > u32::MAX,
            }
        }),
{
    let last = read_day(last_date);
    let stored = read_count(current);
    let l = read_count(longest);
    let extended = match last {
        Some(d) => (d as i64) + 1 == today as i64 && d != today,
        None => false,
    };
    if extended && stored == u32::MAX {
        return None;
    }
    let (s, nl) = record_activity_counts(last, stored, l, today);
    Some(
        WritingStats {
            current_streak: s,
            longest_streak: nl,
            last_writing_date: Some(String::from_str(today_text)),
            goal_met_streak: goal_streak,
        },
    )
}

/// The counters as read on day `today`: the streak drops to zero once the
/// last writing day is older than yesterday.
pub fn stats_on_read(
    last_date: &Option<String>,
    current: &Option<String>,
    longest: &Option<String>,
    today: i32,
    goal_streak: u32,
) -> (r: WritingStats)
    ensures
        r.current_streak == reported_streak(
            stored_day(opt_text(*last_date)),
            stored_count(opt_text(*current)),
            today,
        ),
        r.longest_streak == stored_count(opt_text(*longest)),
        opt_text(r.last_writing_date) == opt_text(*last_date),
        r.goal_met_streak == goal_streak,
{
    let last = read_day(last_date);
    let stored = read_count(current);
    let l = read_count(longest);
    let c = current_streak(last, stored, today);
    let copy = match last_date {
        Some(s) => Some(s.clone()),
        None => None,
    };
    WritingStats { current_streak: c, longest_streak: l, last_writing_date: copy, goal_met_streak: goal_streak }
}

/// A streak survives until the day after the last writing day: read on
/// that day or the next, the stored streak is reported; read two or more
/// days later, or with no writing day, it is reported as zero.
pub proof fn law_streak_lasts_through_the_next_day(last_day: i32, stored: u32, today: i32)
    ensures
        (today == last_day || today == last_day + 1) ==> reported_streak(Some(last_day), stored, today)
            == stored,
        today >= last_day + 2 ==> reported_streak(Some(last_day), stored, today) == 0,
        reported_streak(None, stored, today) == 0,
{
}

/// What a write records is what a read reports on the same day and on the
/// next: writing on `day` and reading then, or one day later, gives back
/// the streak the write stored.
pub proof fn law_read_after_write_reports_the_streak(last: Option<i32>, stored: u32, day: i32, later: i32)
    requires
        streak_after_writing(last, stored, day) <= u32::MAX,
        later == day || later == day + 1,
    ensures
        reported_streak(Some(day), streak_after_writing(last, stored, day) as u32, later)
            == streak_after_writing(last, stored, day),
{
}

/// Writing on the day after the last writing day extends the streak by
/// one; writing after a gap of two or more days, or for the first time,
/// starts a new streak of one day.
pub proof fn law_writing_extends_or_restarts_the_streak(last_day: i32, stored: u32, today: i32)
    ensures
        today == last_day + 1 ==> streak_after_writing(Some(last_day), stored, today) == stored + 1,
        today >= last_day + 2 ==> streak_after_writing(Some(last_day), stored, today) == 1,
        streak_after_writing(None, stored, today) == 1,
{
}

/// After writing, the current streak is at least one day.
pub proof fn law_streak_after_writing_is_positive(last: Option<i32>, stored: u32, today: i32)
    ensures
        streak_after_writing(last, stored, today) >= 1,
{
}

/// Writing twice on the same day leaves the streak where the first write
/// put it.
pub proof fn law_second_write_same_day_is_idempotent(last: Option<i32>, stored: u32, today: i32)
    requires
        streak_after_writing(last, stored, today) <= u32::MAX,
    ensures
        streak_after_writing(Some(today), streak_after_writing(last, stored, today) as u32, today)
            == streak_after_writing(last, stored, today),
{
}

} // verus!
