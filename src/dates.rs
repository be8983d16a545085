use vstd::prelude::*;

use crate::nightlies::views;
use crate::text::{chars_of, string_of};

verus! {

/// How many days after the latest listed nightly are probed for.
pub const PROBE_DAYS: usize = 8;

/// A calendar date of the proleptic Gregorian calendar, as a nightly is named.
#[derive(Clone, Copy, Debug, PartialEq, Eq, Structural)]
pub struct NightlyDate {
    pub year: u16,
    pub month: u8,
    pub day: u8,
}

pub open spec fn is_leap_year(y: int) -> bool {
    (y % 4 == 0 && y % 100 != 0) || y % 400 == 0
}

pub open spec fn days_in_month(y: int, m: int) -> int {
    if m == 2 {
        if is_leap_year(y) {
            29
        } else {
            28
        }
    } else if m == 4 || m == 6 || m == 9 || m == 11 {
        30
    } else {
        31
    }
}

/// A date that exists, with a four-digit year.
pub open spec fn valid_date(d: NightlyDate) -> bool {
    &&& d.year <= 9999
    &&& 1 <= d.month <= 12
    &&& 1 <= d.day <= days_in_month(d.year as int, d.month as int)
}

/// The day after `d`; none after the last day of year 9999.
pub open spec fn next_date(d: NightlyDate) -> Option<NightlyDate> {
    if (d.day as int) < days_in_month(d.year as int, d.month as int) {
        Some(NightlyDate { day: (d.day + 1) as u8, ..d })
    } else if d.month < 12 {
        Some(NightlyDate { month: (d.month + 1) as u8, day: 1, ..d })
    } else if d.year < 9999 {
        Some(NightlyDate { year: (d.year + 1) as u16, month: 1, day: 1 })
    } else {
        None
    }
}

/// The `n` days after `d`, in order, cut short at the last representable day.
pub open spec fn dates_after(d: NightlyDate, n: nat) -> Seq<NightlyDate>
    decreases n,
{
    if n == 0 {
        seq![]
    } else {
        match next_date(d) {
            None => seq![],
            Some(e) => seq![e] + dates_after(e, (n - 1) as nat),
        }
    }
}

pub open spec fn is_digit(c: char) -> bool {
    '0' <= c <= '9'
}

pub open spec fn digit_value(c: char) -> int {
    c as int - '0' as int
}

pub open spec fn digit_char(v: int) -> char {
    "0123456789"@[v]
}

/// The number that the digits `s[start..start + n]` write.
pub open spec fn number_at(s: Seq<char>, start: int, n: nat) -> int
    decreases n,
{
    if n == 0 {
        0
    } else {
        number_at(s, start, (n - 1) as nat) * 10 + digit_value(s[start + n - 1])
    }
}

/// Whether `s` has the shape `YYYY-MM-DD`.
pub open spec fn has_date_shape(s: Seq<char>) -> bool {
    &&& s.len() == 10
    &&& s[4] == '-'
    &&& s[7] == '-'
    &&& forall|i: int| 0 <= i < 10 && i != 4 && i != 7 ==> is_digit(#[trigger] s[i])
}

/// The date that `s` writes as `YYYY-MM-DD`, if it writes one that exists.
pub open spec fn parse_date(s: Seq<char>) -> Option<NightlyDate> {
    if has_date_shape(s) {
        let d = NightlyDate {
            year: number_at(s, 0, 4) as u16,
            month: number_at(s, 5, 2) as u8,
            day: number_at(s, 8, 2) as u8,
        };
        if valid_date(d) {
            Some(d)
        } else {
            None
        }
    } else {
        None
    }
}

/// `d` written as `YYYY-MM-DD`.
pub open spec fn format_date(d: NightlyDate) -> Seq<char> {
    let y = d.year as int;
    let m = d.month as int;
    let dd = d.day as int;
    seq![
        digit_char(y / 1000),
        digit_char(y / 100 % 10),
        digit_char(y / 10 % 10),
        digit_char(y % 10),
        '-',
        digit_char(m / 10),
        digit_char(m % 10),
        '-',
        digit_char(dd / 10),
        digit_char(dd % 10),
    ]
}

/// The nightly names of the `PROBE_DAYS` days after `d`.
pub open spec fn probe_names(d: NightlyDate) -> Seq<Seq<char>> {
    dates_after(d, PROBE_DAYS as nat).map_values(|e: NightlyDate| format_date(e))
}

/// Why nightlies could not be listed.
#[derive(Clone, Copy, Debug, PartialEq, Eq, Structural)]
pub enum CatalogError {
    /// A nightly's name is not a date written `YYYY-MM-DD`.
    InvalidDate,
    /// The manifest listing names no nightly after the cutoff.
    NoNightlies,
}

/// Relies on `time::Date::from_calendar_date` and `time::Date::next_day`:
/// the calendar day after a valid date, and none after `Date::MAX`
/// (9999-12-31 with the crate's default range).
#[verifier::external_body]
fn following_day(d: NightlyDate) -> (r: Option<NightlyDate>)
    requires
        valid_date(d),
    ensures
        r == next_date(d),
{
    let month = time::Month::try_from(d.month).ok()?;
    let date = time::Date::from_calendar_date(d.year as i32, month, d.day).ok()?;
    let next = date.next_day()?;
    Some(NightlyDate { year: next.year() as u16, month: next.month() as u8, day: next.day() })
}

fn is_leap(y: u16) -> (r: bool)
    ensures
        r == is_leap_year(y as int),
{
    (y % 4 == 0 && y % 100 != 0) || y % 400 == 0
}

fn month_length(y: u16, m: u8) -> (r: u8)
    ensures
        r == days_in_month(y as int, m as int),
{
    if m == 2 {
        if is_leap(y) {
            29
        } else {
            28
        }
    } else if m == 4 || m == 6 || m == 9 || m == 11 {
        30
    } else {
        31
    }
}

/// The value of the digit `c`.
fn digit_at(cs: &Vec<char>, i: usize) -> (r: u16)
    requires
        i < cs.len(),
        is_digit(cs@[i as int]),
    ensures
        r == digit_value(cs@[i as int]),
{
    (cs[i] as u32 - '0' as u32) as u16
}

/// The date that `s` writes as `YYYY-MM-DD`, if it writes one that exists.
pub fn parse_nightly_date(s: &str) -> (r: Option<NightlyDate>)
    ensures
        r == parse_date(s@),
{
    let cs = chars_of(s);
    if cs.len() != 10 || cs[4] != '-' || cs[7] != '-' {
        return None;
    }
    let mut i: usize = 0;
    while i < 10
        invariant
            cs.len() == 10,
            cs@ == s@,
            forall|j: int| 0 <= j < i && j != 4 && j != 7 ==> is_digit(#[trigger] cs@[j]),
        decreases 10 - i,
    {
        if i != 4 && i != 7 && !('0' <= cs[i] && cs[i] <= '9') {
            assert(!is_digit(cs@[i as int]));
            assert(!has_date_shape(cs@)) by {
                if has_date_shape(cs@) {
                    assert(is_digit(cs@[i as int]));
                }
            }
            return None;
        }
        i += 1;
    }
    assert(has_date_shape(cs@));
    let year = ((digit_at(&cs, 0) * 10 + digit_at(&cs, 1)) * 10 + digit_at(&cs, 2)) * 10
        + digit_at(&cs, 3);
    let month = (digit_at(&cs, 5) * 10 + digit_at(&cs, 6)) as u8;
    let day = (digit_at(&cs, 8) * 10 + digit_at(&cs, 9)) as u8;
    proof {
        reveal_with_fuel(number_at, 5);
    }
    let d = NightlyDate { year, month, day };
    if 1 <= month && month <= 12 && 1 <= day && day <= month_length(year, month) {
        Some(d)
    } else {
        None
    }
}

/// `d` written as `YYYY-MM-DD`.
pub fn format_nightly_date(d: NightlyDate) -> (r: String)
    requires
        valid_date(d),
    ensures
        r@ == format_date(d),
{
    let digits = chars_of("0123456789");
    proof {
        reveal_strlit("0123456789");
    }
    let y = d.year as usize;
    let m = d.month as usize;
    let dd = d.day as usize;
    let mut cs: Vec<char> = Vec::new();
    cs.push(digits[y / 1000]);
    cs.push(digits[y / 100 % 10]);
    cs.push(digits[y / 10 % 10]);
    cs.push(digits[y % 10]);
    cs.push('-');
    cs.push(digits[m / 10]);
    cs.push(digits[m % 10]);
    cs.push('-');
    cs.push(digits[dd / 10]);
    cs.push(digits[dd % 10]);
    assert(cs@ =~= format_date(d));
    string_of(&cs)
}

/// The nightlies that may have been published after `latest` without being
/// listed yet: the names of the `PROBE_DAYS` following days, in order.
pub fn guess_more_recent_nightlies(latest: &str) -> (r: Result<Vec<String>, CatalogError>)
    ensures
        parse_date(latest@) is None ==> r == Err::<Vec<String>, CatalogError>(
            CatalogError::InvalidDate,
        ),
        parse_date(latest@) matches Some(d) ==> r matches Ok(v) && views(v@) == probe_names(d),
{
    let start = match parse_nightly_date(latest) {
        None => return Err(CatalogError::InvalidDate),
        Some(d) => d,
    };
    let ghost total = probe_names(start);
    let mut out: Vec<String> = Vec::new();
    let mut cur = start;
    let mut remaining: usize = PROBE_DAYS;
    assert(views(out@) + dates_after(cur, remaining as nat).map_values(|e: NightlyDate| format_date(e))
        =~= total);
    while remaining > 0
        invariant
            valid_date(cur),
            views(out@) + dates_after(cur, remaining as nat).map_values(
                |e: NightlyDate| format_date(e),
            ) == total,
        decreases remaining,
    {
        match following_day(cur) {
            None => {
                assert(dates_after(cur, remaining as nat) =~= seq![]);
                assert(dates_after(cur, 0) =~= seq![]);
                remaining = 0;
            },
            Some(next) => {
                proof {
                    lemma_next_date_valid(cur);
                }
                let ghost before = views(out@);
                let ghost rest = dates_after(next, (remaining - 1) as nat);
                out.push(format_nightly_date(next));
                assert(dates_after(cur, remaining as nat) == seq![next] + rest);
                assert(views(out@) =~= before + seq![format_date(next)]);
                assert((seq![next] + rest).map_values(|e: NightlyDate| format_date(e)) =~= seq![
                    format_date(next),
                ] + rest.map_values(|e: NightlyDate| format_date(e)));
                assert(views(out@) + rest.map_values(|e: NightlyDate| format_date(e)) =~= before
                    + (seq![next] + rest).map_values(|e: NightlyDate| format_date(e)));
                cur = next;
                remaining = remaining - 1;
            },
        }
    }
    assert(views(out@) =~= total);
    Ok(out)
}

/// The day after a valid date is valid.
pub proof fn lemma_next_date_valid(d: NightlyDate)
    requires
        valid_date(d),
    ensures
        next_date(d) matches Some(e) ==> valid_date(e),
{
}

} // verus!
