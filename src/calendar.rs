//! Year-month keys (`YYYY-MM`), month lengths and the date range of a month.
use vstd::prelude::*;

verus! {

/// Value of an ASCII decimal digit.
pub open spec fn digit_val(c: char) -> Option<nat> {
    if c == '0' {
        Some(0)
    } else if c == '1' {
        Some(1)
    } else if c == '2' {
        Some(2)
    } else if c == '3' {
        Some(3)
    } else if c == '4' {
        Some(4)
    } else if c == '5' {
        Some(5)
    } else if c == '6' {
        Some(6)
    } else if c == '7' {
        Some(7)
    } else if c == '8' {
        Some(8)
    } else if c == '9' {
        Some(9)
    } else {
        None
    }
}

/// The ASCII digit of a value below ten.
pub open spec fn digit_char(d: nat) -> char {
    if d == 0 {
        '0'
    } else if d == 1 {
        '1'
    } else if d == 2 {
        '2'
    } else if d == 3 {
        '3'
    } else if d == 4 {
        '4'
    } else if d == 5 {
        '5'
    } else if d == 6 {
        '6'
    } else if d == 7 {
        '7'
    } else if d == 8 {
        '8'
    } else {
        '9'
    }
}

pub open spec fn is_digit(c: char) -> bool {
    digit_val(c) is Some
}

/// The year written in the first four characters of a key.
pub open spec fn year_of(s: Seq<char>) -> int {
    (digit_val(s[0])->0 * 1000 + digit_val(s[1])->0 * 100 + digit_val(s[2])->0 * 10 + digit_val(
        s[3],
    )->0) as int
}

/// The month written in the last two characters of a key.
pub open spec fn month_of(s: Seq<char>) -> int {
    (digit_val(s[5])->0 * 10 + digit_val(s[6])->0) as int
}

/// A well-formed key: four digits, a dash and two digits, naming a year
/// from 2000 to 2100 and a month from 1 to 12.
pub open spec fn valid_ym(s: Seq<char>) -> bool {
    &&& s.len() == 7
    &&& is_digit(s[0]) && is_digit(s[1]) && is_digit(s[2]) && is_digit(s[3])
    &&& s[4] == '-'
    &&& is_digit(s[5]) && is_digit(s[6])
    &&& 2000 <= year_of(s) <= 2100
    &&& 1 <= month_of(s) <= 12
}

pub open spec fn is_leap_year(y: int) -> bool {
    (y % 4 == 0 && y % 100 != 0) || y % 400 == 0
}

/// Number of days in month `m` of year `y` in the Gregorian calendar.
pub open spec fn month_length(y: int, m: int) -> int {
    if m == 2 {
        if is_leap_year(y) {
            29
        } else {
            28
        }
    } else if m == 4 || m == 6 || m == 9 || m == 11 {
        30
    } else {
        31
    }
}

/// The month after month `m` of year `y`, as (year, month).
pub open spec fn next_month(y: int, m: int) -> (int, int) {
    if m == 12 {
        (y + 1, 1)
    } else {
        (y, m + 1)
    }
}

/// Relies on chrono's `NaiveDate::from_ymd_opt` (some for every real date of
/// these years), `signed_duration_since` and `num_days`: the days from the first
/// of one month to the first of the next are that month's length.
#[verifier::external_body]
fn days_between_firsts(year: i32, month: u32, next_year: i32, next_month_no: u32) -> (r: i64)
    requires
        2000 <= year <= 2100,
        1 <= month <= 12,
        next_month(year as int, month as int) == (next_year as int, next_month_no as int),
    ensures
        r == month_length(year as int, month as int),
{
    let start = chrono::NaiveDate::from_ymd_opt(year, month, 1).unwrap();
    let end = chrono::NaiveDate::from_ymd_opt(next_year, next_month_no, 1).unwrap();
    end.signed_duration_since(start).num_days()
}

/// The value of an ASCII digit.
pub fn digit_value(c: char) -> (r: Option<u32>)
    ensures
        r matches Some(d) ==> digit_val(c) == Some(d as nat),
        r is None ==> digit_val(c) is None,
{
    if c == '0' {
        Some(0)
    } else if c == '1' {
        Some(1)
    } else if c == '2' {
        Some(2)
    } else if c == '3' {
        Some(3)
    } else if c == '4' {
        Some(4)
    } else if c == '5' {
        Some(5)
    } else if c == '6' {
        Some(6)
    } else if c == '7' {
        Some(7)
    } else if c == '8' {
        Some(8)
    } else if c == '9' {
        Some(9)
    } else {
        None
    }
}

/// Reads a `YYYY-MM` key into (year, month) when it is well-formed.
pub fn parse_ym(ym: &str) -> (r: Option<(u32, u32)>)
    ensures
        r is Some <==> valid_ym(ym@),
        r matches Some(p) ==> p.0 == year_of(ym@) && p.1 == month_of(ym@),
{
    if ym.unicode_len() != 7 || ym.get_char(4) != '-' {
        return None;
    }
    let y0 = digit_value(ym.get_char(0));
    let y1 = digit_value(ym.get_char(1));
    let y2 = digit_value(ym.get_char(2));
    let y3 = digit_value(ym.get_char(3));
    let m0 = digit_value(ym.get_char(5));
    let m1 = digit_value(ym.get_char(6));
    match (y0, y1, y2, y3, m0, m1) {
        (Some(a), Some(b), Some(c), Some(d), Some(e), Some(f)) => {
            let year = a * 1000 + b * 100 + c * 10 + d;
            let month = e * 10 + f;
            if 2000 <= year && year <= 2100 && 1 <= month && month <= 12 {
                Some((year, month))
            } else {
                None
            }
        },
        _ => None,
    }
}

/// Whether `ym` is a well-formed `YYYY-MM` key for a year from 2000 to 2100.
pub fn is_valid_ym(ym: &str) -> (r: bool)
    ensures
        r == valid_ym(ym@),
{
    parse_ym(ym).is_some()
}

/// Length of month `month` of `year`.
pub fn month_days(year: u32, month: u32) -> (r: usize)
    requires
        2000 <= year <= 2100,
        1 <= month <= 12,
    ensures
        r == month_length(year as int, month as int),
{
    let (next_year, next_month_no) = if month == 12 {
        (year + 1, 1u32)
    } else {
        (year, month + 1)
    };
    let days = days_between_firsts(year as i32, month, next_year as i32, next_month_no);
    days as usize
}

/// Number of days in the month named by a well-formed key.
pub fn days_in_month(ym: &str) -> (r: usize)
    requires
        valid_ym(ym@),
    ensures
        r == month_length(year_of(ym@), month_of(ym@)),
        28 <= r <= 31,
{
    let (year, month) = parse_ym(ym).unwrap();
    month_days(year, month)
}

/// The two-digit text of a month length.
pub open spec fn two_digits(n: int) -> Seq<char> {
    seq![digit_char((n / 10) as nat), digit_char((n % 10) as nat)]
}

/// First and last dates (`YYYY-MM-DD`) of the month named by `ym`, or none
/// when the key is not well-formed.
pub fn get_month_bounds(ym: &str) -> (r: Option<(String, String)>)
    ensures
        r is Some <==> valid_ym(ym@),
        r matches Some(b) ==> b.0@ == ym@ + seq!['-', '0', '1'] && b.1@ == ym@ + seq!['-']
            + two_digits(month_length(year_of(ym@), month_of(ym@))),
{
    if !is_valid_ym(ym) {
        return None;
    }
    let days = days_in_month(ym);
    let mut start = String::from_str(ym);
    start.append("-01");
    let mut end = String::from_str(ym);
    let last = if days == 28 {
        "-28"
    } else if days == 29 {
        "-29"
    } else if days == 30 {
        "-30"
    } else {
        "-31"
    };
    end.append(last);
    proof {
        reveal_strlit("-01");
        reveal_strlit("-28");
        reveal_strlit("-29");
        reveal_strlit("-30");
        reveal_strlit("-31");
        assert(start@ =~= ym@ + seq!['-', '0', '1']);
        assert(end@ =~= ym@ + seq!['-'] + two_digits(days as int));
    }
    Some((start, end))
}

} // verus!
