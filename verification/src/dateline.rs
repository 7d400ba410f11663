//! The publication-date line of the receipt: the date rendered as
//! "<full weekday>, <full month> <day-of-month>, <year>", with no zero
//! padding on the day.
use vstd::prelude::*;

verus! {

pub open spec fn is_leap_year(y: int) -> bool {
    (y % 4 == 0 && y % 100 != 0) || y % 400 == 0
}

pub open spec fn days_in_month(y: int, m: int) -> int {
    if m == 2 {
        if is_leap_year(y) {
            29
        } else {
            28
        }
    } else if m == 4 || m == 6 || m == 9 || m == 11 {
        30
    } else {
        31
    }
}

/// A proleptic Gregorian calendar date as the validated puzzle document
/// carries it.
pub open spec fn valid_date(y: int, m: int, d: int) -> bool {
    &&& 0 <= y <= 9999
    &&& 1 <= m <= 12
    &&& 1 <= d <= days_in_month(y, m)
}

/// Day of the week of a Gregorian calendar date, numbered 0 = Monday
/// through 6 = Sunday.
pub uninterp spec fn weekday_of(y: int, m: int, d: int) -> int;

/// Relies on jiff's `civil::Date::new`, `Date::weekday` and
/// `Weekday::to_monday_zero_offset`: the day of the week of a civil date, a
/// function of the date alone, numbered 0 = Monday through 6 = Sunday.
/// `Date::new` accepts every date admitted by `valid_date`, which keeps the
/// year within jiff's documented range.
#[verifier::external_body]
fn weekday_index(year: i16, month: u8, day: u8) -> (r: u8)
    requires
        valid_date(year as int, month as int, day as int),
    ensures
        r == weekday_of(year as int, month as int, day as int),
        r <= 6,
{
    let date = jiff::civil::Date::new(year, month as i8, day as i8).unwrap();
    date.weekday().to_monday_zero_offset() as u8
}

pub open spec fn spec_weekday_name(w: int) -> Seq<char> {
    if w == 0 {
        "Monday"@
    } else if w == 1 {
        "Tuesday"@
    } else if w == 2 {
        "Wednesday"@
    } else if w == 3 {
        "Thursday"@
    } else if w == 4 {
        "Friday"@
    } else if w == 5 {
        "Saturday"@
    } else {
        "Sunday"@
    }
}

fn weekday_name(w: u8) -> (r: &'static str)
    requires
        w <= 6,
    ensures
        r@ == spec_weekday_name(w as int),
{
    match w {
        0 => "Monday",
        1 => "Tuesday",
        2 => "Wednesday",
        3 => "Thursday",
        4 => "Friday",
        5 => "Saturday",
        _ => "Sunday",
    }
}

pub open spec fn spec_month_name(m: int) -> Seq<char> {
    if m == 1 {
        "January"@
    } else if m == 2 {
        "February"@
    } else if m == 3 {
        "March"@
    } else if m == 4 {
        "April"@
    } else if m == 5 {
        "May"@
    } else if m == 6 {
        "June"@
    } else if m == 7 {
        "July"@
    } else if m == 8 {
        "August"@
    } else if m == 9 {
        "September"@
    } else if m == 10 {
        "October"@
    } else if m == 11 {
        "November"@
    } else {
        "December"@
    }
}

fn month_name(m: u8) -> (r: &'static str)
    requires
        1 <= m <= 12,
    ensures
        r@ == spec_month_name(m as int),
{
    match m {
        1 => "January",
        2 => "February",
        3 => "March",
        4 => "April",
        5 => "May",
        6 => "June",
        7 => "July",
        8 => "August",
        9 => "September",
        10 => "October",
        11 => "November",
        _ => "December",
    }
}

pub open spec fn digit_char(d: int) -> char {
    if d == 0 {
        '0'
    } else if d == 1 {
        '1'
    } else if d == 2 {
        '2'
    } else if d == 3 {
        '3'
    } else if d == 4 {
        '4'
    } else if d == 5 {
        '5'
    } else if d == 6 {
        '6'
    } else if d == 7 {
        '7'
    } else if d == 8 {
        '8'
    } else {
        '9'
    }
}

/// Decimal rendering of a non-negative integer, without leading zeros.
pub open spec fn dec_str(n: int) -> Seq<char>
    decreases n,
{
    if n <= 9 {
        seq![digit_char(n)]
    } else {
        dec_str(n / 10) + seq![digit_char(n % 10)]
    }
}

fn digit_str(d: u64) -> (r: &'static str)
    requires
        d <= 9,
    ensures
        r@ == seq![digit_char(d as int)],
{
    let r = match d {
        0 => "0",
        1 => "1",
        2 => "2",
        3 => "3",
        4 => "4",
        5 => "5",
        6 => "6",
        7 => "7",
        8 => "8",
        _ => "9",
    };
    proof {
        reveal_strlit("0");
        reveal_strlit("1");
        reveal_strlit("2");
        reveal_strlit("3");
        reveal_strlit("4");
        reveal_strlit("5");
        reveal_strlit("6");
        reveal_strlit("7");
        reveal_strlit("8");
        reveal_strlit("9");
        assert(r@ =~= seq![digit_char(d as int)]);
    }
    r
}

/// Renders a number in decimal.
pub fn dec_string(n: u64) -> (r: String)
    ensures
        r@ == dec_str(n as int),
    decreases n,
{
    if n <= 9 {
        String::from_str(digit_str(n))
    } else {
        let mut s = dec_string(n / 10);
        s.append(digit_str(n % 10));
        s
    }
}

/// The full date line: weekday name, month name, unpadded day, year.
pub open spec fn spec_date_line(y: int, m: int, d: int) -> Seq<char> {
    spec_weekday_name(weekday_of(y, m, d)) + ", "@ + spec_month_name(m) + " "@ + dec_str(d) + ", "@
        + dec_str(y)
}

/// Formats a publication date for the receipt's second line.
pub fn format_date(year: i16, month: u8, day: u8) -> (r: String)
    requires
        valid_date(year as int, month as int, day as int),
    ensures
        r@ == spec_date_line(year as int, month as int, day as int),
{
    let w = weekday_index(year, month, day);
    let mut out = String::from_str(weekday_name(w));
    out.append(", ");
    out.append(month_name(month));
    out.append(" ");
    let day_s = dec_string(day as u64);
    out.append(day_s.as_str());
    out.append(", ");
    let year_s = dec_string(year as u64);
    out.append(year_s.as_str());
    proof {
        assert(day as u64 as int == day as int);
        assert(year as u64 as int == year as int);
    }
    out
}

} // verus!
