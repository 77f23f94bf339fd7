//! Timestamps in the form of ISO 8601.

use vstd::prelude::*;

use crate::outside::Reading;

verus! {

/// Whether `y` is a leap year.
pub open spec fn leap_year(y: int) -> bool {
    y % 4 == 0 && (y % 100 != 0 || y % 400 == 0)
}

/// The length of a month, counted from 1.
pub open spec fn month_len(month: int, leap: bool) -> int {
    if month == 2 {
        if leap {
            29
        } else {
            28
        }
    } else if month == 4 || month == 6 || month == 9 || month == 11 {
        30
    } else {
        31
    }
}

/// How many days of a year come before a month, counted from 1.
pub open spec fn days_before(month: int, leap: bool) -> int
    decreases month,
{
    if month <= 1 {
        0
    } else {
        days_before(month - 1, leap) + month_len(month - 1, leap)
    }
}

/// How many days a year has.
pub open spec fn year_len(leap: bool) -> int {
    if leap {
        366
    } else {
        365
    }
}

/// Whether day `day` of month `month` is day `day_of_year` of the year, counted from 0.
pub open spec fn is_date(day_of_year: int, leap: bool, month: int, day: int) -> bool {
    &&& 1 <= month <= 12
    &&& 1 <= day <= month_len(month, leap)
    &&& days_before(month, leap) + day - 1 == day_of_year
}

/// The digits of `n` in base ten.
pub open spec fn decimal(n: nat) -> Seq<char>
    decreases n,
{
    if n < 10 {
        seq!["0123456789"@[n as int]]
    } else {
        decimal(n / 10).push("0123456789"@[(n % 10) as int])
    }
}

/// `n` zeros.
pub open spec fn zeros(n: int) -> Seq<char> {
    if n <= 0 {
        seq![]
    } else {
        Seq::new(n as nat, |i: int| '0')
    }
}

/// The digits of `n` in base ten, with zeros before them up to `width`.
pub open spec fn padded(n: nat, width: int) -> Seq<char> {
    zeros(width - decimal(n).len()) + decimal(n)
}

/// The text of a moment: date, `T`, time of day, `Z`.
pub open spec fn moment_text(y: nat, mo: nat, d: nat, h: nat, mi: nat, s: nat) -> Seq<char> {
    padded(y, 4) + "-"@ + padded(mo, 2) + "-"@ + padded(d, 2) + "T"@ + padded(h, 2) + ":"@ + padded(
        mi,
        2,
    ) + ":"@ + padded(s, 2) + "Z"@
}

/// How many days there are from the Unix epoch to the start of year `y`.
pub open spec fn days_to_year(y: int) -> int
    decreases y - 1970,
{
    if y <= 1970 {
        0
    } else {
        days_to_year(y - 1) + year_len(leap_year(y - 1))
    }
}

/// Whether `at` is the moment `secs` seconds after the Unix epoch: year, month, day, hour, minute,
/// second.
pub open spec fn is_moment(secs: int, at: (u64, u64, u64, u64, u64, u64)) -> bool {
    &&& at.0 >= 1970
    &&& is_date(
        secs / 86400 - days_to_year(at.0 as int),
        leap_year(at.0 as int),
        at.1 as int,
        at.2 as int,
    )
    &&& at.3 == (secs / 3600) % 24
    &&& at.4 == (secs / 60) % 60
    &&& at.5 == secs % 60
}

/// Whether `t` is the text of the moment `secs` seconds after the Unix epoch.
pub open spec fn is_stamp(secs: u64, t: Seq<char>) -> bool {
    exists|at: (u64, u64, u64, u64, u64, u64)| #[trigger]
        is_moment(secs as int, at) && t == moment_text(
            at.0 as nat,
            at.1 as nat,
            at.2 as nat,
            at.3 as nat,
            at.4 as nat,
            at.5 as nat,
        )
}

proof fn lemma_days_before_step(month: int, leap: bool)
    requires
        1 <= month,
    ensures
        days_before(month + 1, leap) == days_before(month, leap) + month_len(month, leap),
{
}

proof fn lemma_days_before_monotone(a: int, b: int, leap: bool)
    requires
        1 <= a <= b,
    ensures
        days_before(a, leap) <= days_before(b, leap),
    decreases b - a,
{
    if a < b {
        lemma_days_before_monotone(a, b - 1, leap);
    }
}

/// A day of the year has one date.
pub proof fn law_date_unique(day_of_year: int, leap: bool, m1: int, d1: int, m2: int, d2: int)
    requires
        is_date(day_of_year, leap, m1, d1),
        is_date(day_of_year, leap, m2, d2),
    ensures
        m1 == m2,
        d1 == d2,
{
    if m1 < m2 {
        lemma_days_before_step(m1, leap);
        lemma_days_before_monotone(m1 + 1, m2, leap);
    } else if m2 < m1 {
        lemma_days_before_step(m2, leap);
        lemma_days_before_monotone(m2 + 1, m1, leap);
    }
}

/// The number of days to a year in closed form: 365 for each year, and one more for each leap
/// year.
proof fn lemma_days_to_year(y: int)
    requires
        y >= 1970,
    ensures
        days_to_year(y) == 365 * (y - 1970) + (y - 1) / 4 - (y - 1) / 100 + (y - 1) / 400 - 477,
    decreases y,
{
    if y > 1970 {
        lemma_days_to_year(y - 1);
    }
}

proof fn lemma_date_in_year(day_of_year: int, leap: bool, month: int, day: int)
    requires
        is_date(day_of_year, leap, month, day),
    ensures
        0 <= day_of_year < year_len(leap),
{
    lemma_days_before_monotone(1, month, leap);
    lemma_days_before_step(month, leap);
    lemma_days_before_monotone(month + 1, 13, leap);
    lemma_year(leap);
}

proof fn lemma_days_to_year_monotone(a: int, b: int)
    requires
        1970 <= a <= b,
    ensures
        days_to_year(a) <= days_to_year(b),
    decreases b - a,
{
    if a < b {
        lemma_days_to_year_monotone(a, b - 1);
    }
}

/// A number of seconds since the Unix epoch is one moment.
pub proof fn law_moment_unique(
    secs: int,
    a: (u64, u64, u64, u64, u64, u64),
    b: (u64, u64, u64, u64, u64, u64),
)
    requires
        is_moment(secs, a),
        is_moment(secs, b),
    ensures
        a == b,
{
    let days = secs / 86400;
    lemma_date_in_year(
        days - days_to_year(a.0 as int),
        leap_year(a.0 as int),
        a.1 as int,
        a.2 as int,
    );
    lemma_date_in_year(
        days - days_to_year(b.0 as int),
        leap_year(b.0 as int),
        b.1 as int,
        b.2 as int,
    );
    if a.0 < b.0 {
        lemma_days_to_year_monotone(a.0 + 1, b.0 as int);
    } else if b.0 < a.0 {
        lemma_days_to_year_monotone(b.0 + 1, a.0 as int);
    }
    law_date_unique(
        days - days_to_year(a.0 as int),
        leap_year(a.0 as int),
        a.1 as int,
        a.2 as int,
        b.1 as int,
        b.2 as int,
    );
}

/// A moment gives its number of seconds back: the days of the years, of the months and of the
/// month before it, and the time of day.
pub proof fn law_seconds_read_back(secs: int, at: (u64, u64, u64, u64, u64, u64))
    requires
        0 <= secs,
        is_moment(secs, at),
    ensures
        secs == (days_to_year(at.0 as int) + days_before(at.1 as int, leap_year(at.0 as int))
            + at.2 - 1) * 86400 + at.3 * 3600 + at.4 * 60 + at.5,
{
}

/// The calendar repeats after 400 years.
pub proof fn law_calendar_cycle(y: int)
    requires
        y >= 1970,
    ensures
        leap_year(y + 400) == leap_year(y),
        days_to_year(y + 400) == days_to_year(y) + 146097,
{
    lemma_days_to_year(y);
    lemma_days_to_year(y + 400);
}

/// A moment has one text.
pub proof fn law_stamp_unique(secs: u64, a: Seq<char>, b: Seq<char>)
    requires
        is_stamp(secs, a),
        is_stamp(secs, b),
    ensures
        a == b,
{
    let x = choose|at: (u64, u64, u64, u64, u64, u64)| #[trigger]
        is_moment(secs as int, at) && a == moment_text(
            at.0 as nat,
            at.1 as nat,
            at.2 as nat,
            at.3 as nat,
            at.4 as nat,
            at.5 as nat,
        );
    let y = choose|at: (u64, u64, u64, u64, u64, u64)| #[trigger]
        is_moment(secs as int, at) && b == moment_text(
            at.0 as nat,
            at.1 as nat,
            at.2 as nat,
            at.3 as nat,
            at.4 as nat,
            at.5 as nat,
        );
    law_moment_unique(secs as int, x, y);
}

/// Hours, minutes and seconds make up the time of day.
pub proof fn law_time_of_day(secs: int, at: (u64, u64, u64, u64, u64, u64))
    requires
        0 <= secs,
        is_moment(secs, at),
    ensures
        at.3 < 24,
        at.4 < 60,
        at.5 < 60,
        at.3 * 3600 + at.4 * 60 + at.5 == secs % 86400,
{
}

proof fn lemma_padded(n: nat, width: int)
    requires
        width == 2 && n < 100 || width == 4 && n < 10000,
    ensures
        padded(n, width).len() == width,
{
    reveal_with_fuel(decimal, 4);
}

/// Up to the year 9999 a text has the form `YYYY-MM-DDThh:mm:ssZ`.
pub proof fn law_stamp_form(secs: u64, t: Seq<char>)
    requires
        is_stamp(secs, t),
        secs < 253402300800,
    ensures
        t.len() == 20,
        t[4] == '-' && t[7] == '-' && t[10] == 'T',
        t[13] == ':' && t[16] == ':' && t[19] == 'Z',
{
    let at = choose|at: (u64, u64, u64, u64, u64, u64)| #[trigger]
        is_moment(secs as int, at) && t == moment_text(
            at.0 as nat,
            at.1 as nat,
            at.2 as nat,
            at.3 as nat,
            at.4 as nat,
            at.5 as nat,
        );
    lemma_date_in_year(
        secs as int / 86400 - days_to_year(at.0 as int),
        leap_year(at.0 as int),
        at.1 as int,
        at.2 as int,
    );
    if at.0 >= 10000 {
        lemma_days_to_year_monotone(10000, at.0 as int);
        lemma_days_to_year(10000);
    }
    reveal_strlit("-");
    reveal_strlit("T");
    reveal_strlit(":");
    reveal_strlit("Z");
    lemma_padded(at.0 as nat, 4);
    lemma_padded(at.1 as nat, 2);
    lemma_padded(at.2 as nat, 2);
    lemma_padded(at.3 as nat, 2);
    lemma_padded(at.4 as nat, 2);
    lemma_padded(at.5 as nat, 2);
}

/// Whether `y` is a leap year.
pub fn is_leap(y: u64) -> (r: bool)
    ensures
        r == leap_year(y as int),
{
    y % 4 == 0 && (y % 100 != 0 || y % 400 == 0)
}

/// The month and the day of month of a day of the year, which is counted from 0. A day after
/// the end of the year counts as its last.
pub fn month_day(day_of_year: u64, leap: bool) -> (r: (u64, u64))
    ensures
        day_of_year < year_len(leap) ==> is_date(day_of_year as int, leap, r.0 as int, r.1 as int),
        day_of_year >= year_len(leap) ==> r == (12u64, 31u64),
{
    let mut remaining: u64 = day_of_year;
    let mut month: u64 = 1;
    while month <= 12
        invariant
            1 <= month <= 13,
            remaining + days_before(month as int, leap) == day_of_year,
        decreases 13 - month,
    {
        let days: u64 = if month == 2 {
            if leap {
                29
            } else {
                28
            }
        } else if month == 4 || month == 6 || month == 9 || month == 11 {
            30
        } else {
            31
        };
        assert(days == month_len(month as int, leap));
        if remaining < days {
            proof {
                lemma_days_before_monotone(month + 1, 13, leap);
                lemma_year(leap);
            }
            return (month, remaining + 1);
        }
        remaining -= days;
        month += 1;
    }
    proof {
        lemma_year(leap);
    }
    (12, 31)
}

proof fn lemma_year(leap: bool)
    ensures
        days_before(13, leap) == year_len(leap),
{
    reveal_with_fuel(days_before, 14);
}

/// The year of a day, which is counted from the Unix epoch, and the day of that year, counted
/// from 0.
fn year_day(days: u64) -> (r: (u64, u64))
    ensures
        r.0 >= 1970,
        r.1 < year_len(leap_year(r.0 as int)),
        days_to_year(r.0 as int) + r.1 == days,
{
    let cycles: u64 = days / 146097;
    let mut left: u64 = days % 146097;
    let mut y: u64 = 1970 + 400 * cycles;
    let ghost first = y as int;
    proof {
        lemma_days_to_year(first);
        lemma_days_to_year(first + 400);
    }
    loop
        invariant
            first <= y <= first + 400,
            first == 1970 + 400 * cycles,
            cycles <= u64::MAX / 146097,
            days_to_year(y as int) + left == days,
            days < days_to_year(first + 400),
        ensures
            1970 <= y,
            left < year_len(leap_year(y as int)),
            days_to_year(y as int) + left == days,
        decreases first + 400 - y,
    {
        let len: u64 = if is_leap(y) {
            366
        } else {
            365
        };
        if left < len {
            break;
        }
        proof {
            assert(days_to_year(y + 1) == days_to_year(y as int) + len);
        }
        left -= len;
        y += 1;
    }
    (y, left)
}

/// Year, month, day, hour, minute and second of the moment `secs` seconds after the Unix epoch.
pub fn unix_to_ymd_hms(secs: u64) -> (r: (u64, u64, u64, u64, u64, u64))
    ensures
        is_moment(secs as int, r),
{
    let s = secs % 60;
    let m = (secs / 60) % 60;
    let h = (secs / 3600) % 24;
    let (y, yd) = year_day(secs / 86400);
    let (mo, d) = month_day(yd, is_leap(y));
    (y, mo, d, h, m, s)
}

/// The digits of `n` in base ten.
fn decimal_text(n: u64) -> (r: String)
    ensures
        r@ == decimal(n as nat),
    decreases n,
{
    proof {
        reveal_strlit("0123456789");
    }
    let digits = "0123456789";
    let last = (n % 10) as usize;
    let digit = digits.substring_char(last, last + 1);
    if n < 10 {
        let r = digit.to_owned();
        assert(r@ =~= decimal(n as nat));
        r
    } else {
        let mut r = decimal_text(n / 10);
        r.append(digit);
        assert(r@ =~= decimal(n as nat));
        r
    }
}

/// Puts the digits of `n` behind `out`, with zeros before them up to `width`.
fn push_padded(out: &mut String, n: u64, width: usize)
    ensures
        final(out)@ == old(out)@ + padded(n as nat, width as int),
{
    let digits = decimal_text(n);
    let len = digits.as_str().unicode_len();
    let ghost before = out@;
    let mut i: usize = len;
    proof {
        assert(before + zeros(0) =~= before);
    }
    while i < width
        invariant
            i == len || len <= i <= width,
            out@ == before + zeros(i - len),
        decreases width - i,
    {
        proof {
            reveal_strlit("0");
            assert(zeros(i - len) + "0"@ =~= zeros(i + 1 - len));
            assert(before + zeros(i - len) + "0"@ =~= before + (zeros(i - len) + "0"@));
        }
        out.append("0");
        i += 1;
    }
    proof {
        assert(zeros(i - len) =~= zeros(width - len));
    }
    out.append(digits.as_str());
    assert(out@ =~= before + padded(n as nat, width as int));
}

/// The text of the moment `secs` seconds after the Unix epoch, such as
/// `1970-01-01T00:00:00Z`.
pub fn iso8601(secs: u64) -> (r: String)
    ensures
        is_stamp(secs, r@),
{
    let at = unix_to_ymd_hms(secs);
    let (y, mo, d, h, mi, s) = at;
    let mut out = String::new();
    push_padded(&mut out, y, 4);
    out.append("-");
    push_padded(&mut out, mo, 2);
    out.append("-");
    push_padded(&mut out, d, 2);
    out.append("T");
    push_padded(&mut out, h, 2);
    out.append(":");
    push_padded(&mut out, mi, 2);
    out.append(":");
    push_padded(&mut out, s, 2);
    out.append("Z");
    assert(out@ =~= moment_text(
        y as nat,
        mo as nat,
        d as nat,
        h as nat,
        mi as nat,
        s as nat,
    ));
    assert(is_moment(secs as int, at));
    out
}

/// Whether `t` is the text of the moment that was read. A clock that stands before the Unix epoch
/// counts as standing at it.
pub open spec fn is_stamp_of(reading: Reading, t: Seq<char>) -> bool {
    is_stamp(
        match reading.shown() {
            Some(secs) => secs,
            None => 0,
        },
        t,
    )
}

/// The text of the moment that a clock shows: `None` where it stands before the Unix epoch, which
/// counts as standing at it.
pub fn stamp(shown: Option<u64>) -> (r: String)
    ensures
        is_stamp(
            match shown {
                Some(secs) => secs,
                None => 0,
            },
            r@,
        ),
{
    match shown {
        Some(secs) => iso8601(secs),
        None => iso8601(0),
    }
}

/// The text of the present moment. A clock that stands before the Unix epoch counts as standing
/// at it.
pub fn now_iso8601() -> (r: String)
    ensures
        exists|secs: u64| #[trigger] is_stamp(secs, r@),
        exists|reading: Reading| #[trigger] is_stamp_of(reading, r@),
{
    let reading = Reading::now();
    let r = stamp(reading.seconds());
    assert(is_stamp_of(reading, r@));
    r
}

/// The text of a reading is that of the seconds it shows, and of the Unix epoch where it shows
/// none.
pub proof fn law_stamp_of_reading(reading: Reading, t: Seq<char>)
    ensures
        reading.shown() matches Some(secs) ==> (is_stamp_of(reading, t) <==> is_stamp(secs, t)),
        reading.shown() is None ==> (is_stamp_of(reading, t) <==> is_stamp(0, t)),
{
}

/// The number that a text of digits stands for in base ten.
pub open spec fn number_of(digits: Seq<char>) -> int
    decreases digits.len(),
{
    if digits.len() == 0 {
        0
    } else {
        10 * number_of(digits.drop_last()) + (digits.last() as int - '0' as int)
    }
}

/// The digits of a number are digits, stand for that number, and start with a zero only where they
/// are nothing else.
pub proof fn law_decimal(n: nat)
    ensures
        decimal(n).len() > 0,
        forall|i: int| 0 <= i < decimal(n).len() ==> '0' <= #[trigger] decimal(n)[i] <= '9',
        number_of(decimal(n)) == n,
        decimal(n).len() > 1 ==> decimal(n)[0] != '0',
    decreases n,
{
    reveal_strlit("0123456789");
    if n < 10 {
        assert(decimal(n).drop_last() =~= Seq::<char>::empty());
        assert(number_of(Seq::<char>::empty()) == 0);
    } else {
        law_decimal(n / 10);
        let last = "0123456789"@[(n % 10) as int];
        assert(last as int == '0' as int + (n % 10));
        assert(decimal(n) == decimal(n / 10).push(last));
        assert(decimal(n).drop_last() =~= decimal(n / 10));
        assert forall|i: int| 0 <= i < decimal(n).len() implies '0' <= #[trigger] decimal(n)[i]
            <= '9' by {
            if i < decimal(n / 10).len() {
                assert(decimal(n)[i] == decimal(n / 10)[i]);
            }
        }
        assert(decimal(n / 10)[0] != '0') by {
            if n / 10 < 10 {
                assert(decimal(n / 10) =~= seq!["0123456789"@[(n / 10) as int]]);
            } else {
                reveal_with_fuel(decimal, 2);
            }
        }
    }
}

/// Padding puts zeros before the digits, and only where they do not fill the width.
pub proof fn law_padded(n: nat, width: int)
    ensures
        decimal(n).len() >= width ==> padded(n, width) == decimal(n),
        decimal(n).len() < width ==> {
            &&& padded(n, width).len() == width
            &&& padded(n, width).skip(width - decimal(n).len()) == decimal(n)
            &&& forall|i: int|
                0 <= i < width - decimal(n).len() ==> #[trigger] padded(n, width)[i] == '0'
        },
{
    if decimal(n).len() >= width {
        assert(padded(n, width) =~= decimal(n));
    } else {
        assert(padded(n, width).skip(width - decimal(n).len()) =~= decimal(n));
    }
}

/// A text of a moment is its year in at least four digits and its month, day, hour, minute and
/// second in at least two, in this order, with `-` between the parts of the date, `T` before the
/// time of day, `:` between its parts and `Z` behind it.
pub proof fn law_stamp(secs: u64, at: (u64, u64, u64, u64, u64, u64), t: Seq<char>)
    requires
        is_moment(secs as int, at),
    ensures
        is_stamp(secs, t) <==> t == padded(at.0 as nat, 4) + seq!['-'] + padded(at.1 as nat, 2)
            + seq!['-'] + padded(at.2 as nat, 2) + seq!['T'] + padded(at.3 as nat, 2) + seq![':']
            + padded(at.4 as nat, 2) + seq![':'] + padded(at.5 as nat, 2) + seq!['Z'],
{
    reveal_strlit("-");
    reveal_strlit("T");
    reveal_strlit(":");
    reveal_strlit("Z");
    assert("-"@ =~= seq!['-']);
    assert("T"@ =~= seq!['T']);
    assert(":"@ =~= seq![':']);
    assert("Z"@ =~= seq!['Z']);
    let s = moment_text(
        at.0 as nat,
        at.1 as nat,
        at.2 as nat,
        at.3 as nat,
        at.4 as nat,
        at.5 as nat,
    );
    assert(is_stamp(secs, s));
    if is_stamp(secs, t) {
        law_stamp_unique(secs, s, t);
    }
}

/// The calendar: a year has 366 days where it is divisible by 4, and by 100 only if by 400 too,
/// and else 365; the years are counted from 1970.
pub proof fn law_years(y: int)
    requires
        y >= 1970,
    ensures
        days_to_year(1970) == 0,
        days_to_year(y + 1) - days_to_year(y) == if y % 400 == 0 {
            366int
        } else if y % 100 == 0 {
            365
        } else if y % 4 == 0 {
            366
        } else {
            365
        },
        leap_year(y) <==> days_to_year(y + 1) - days_to_year(y) == 366,
        year_len(leap_year(y)) == days_to_year(y + 1) - days_to_year(y),
{
}

/// The days of a year before each of its months, in a year of 365 days; one of 366 has one more
/// before every month behind February. Each month ends where the next begins.
pub proof fn law_months(leap: bool, month: int)
    requires
        1 <= month <= 12,
    ensures
        days_before(month, false) == seq![
            0int,
            31,
            59,
            90,
            120,
            151,
            181,
            212,
            243,
            273,
            304,
            334,
        ][month - 1],
        days_before(month, true) == days_before(month, false) + if month > 2 {
            1int
        } else {
            0
        },
        month < 12 ==> month_len(month, leap) == days_before(month + 1, leap) - days_before(
            month,
            leap,
        ),
        month_len(12, leap) == 31,
{
    reveal_with_fuel(days_before, 13);
}

/// A moment is a date of its year and a time of day: the day of the year is counted from the days
/// before its month, the day of the month from 1 and within the month, and hours, minutes and
/// seconds within their limits; together they make up the seconds.
pub proof fn law_moment(secs: int, at: (u64, u64, u64, u64, u64, u64))
    requires
        0 <= secs,
    ensures
        is_moment(secs, at) <==> {
            &&& at.0 >= 1970
            &&& 1 <= at.1 <= 12
            &&& 1 <= at.2 <= month_len(at.1 as int, leap_year(at.0 as int))
            &&& at.3 < 24
            &&& at.4 < 60
            &&& at.5 < 60
            &&& secs == 86400 * (days_to_year(at.0 as int) + days_before(
                at.1 as int,
                leap_year(at.0 as int),
            ) + at.2 - 1) + 3600 * at.3 + 60 * at.4 + at.5
        },
{
    let days = days_to_year(at.0 as int) + days_before(at.1 as int, leap_year(at.0 as int)) + at.2
        - 1;
    if is_moment(secs, at) {
        law_time_of_day(secs, at);
        law_seconds_read_back(secs, at);
    }
    if at.3 < 24 && at.4 < 60 && at.5 < 60 && secs == 86400 * days + 3600 * at.3 + 60 * at.4
        + at.5 {
        lemma_time_of_day(secs, days, at.3 as int, at.4 as int, at.5 as int);
    }
}

proof fn lemma_time_of_day(secs: int, days: int, h: int, mi: int, s: int)
    requires
        0 <= h < 24,
        0 <= mi < 60,
        0 <= s < 60,
        secs == 86400 * days + 3600 * h + 60 * mi + s,
    ensures
        secs / 86400 == days,
        (secs / 3600) % 24 == h,
        (secs / 60) % 60 == mi,
        secs % 60 == s,
{
    assert(secs / 60 == 1440 * days + 60 * h + mi);
    assert(secs / 3600 == 24 * days + h);
}

} // verus!
