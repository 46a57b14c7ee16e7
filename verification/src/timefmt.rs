//! Modification times for `ls -l`, in coreutils' default style: `Mon DD HH:MM`
//! for recent files, `Mon DD  YYYY` for files more than about six months
//! from now. The broken-down local time comes from the C library.
use vstd::prelude::*;
use crate::num::{i64_to_string, push_signed_decimal, signed_decimal};
use crate::text::{push_pad_left, pad_left};

verus! {

/// The fields of a C `struct tm` that the listing shows.
#[derive(Debug, Clone, Copy, PartialEq, Eq, Structural)]
pub struct LocalTime {
    /// Month, 0 for January (`tm_mon`).
    pub month: i32,
    /// Day of the month (`tm_mday`).
    pub day: i32,
    /// Years since 1900 (`tm_year`).
    pub year: i32,
    pub hour: i32,
    pub minute: i32,
}

/// Half a year, in seconds: the limit between the two styles.
pub open spec fn six_months() -> int {
    (60 * 60 * 24 * 365 / 2) as int
}

/// The three-letter name of a month, with out-of-range numbers clamped.
pub open spec fn month_name(m: int) -> Seq<char> {
    if m <= 0 {
        "Jan"@
    } else if m == 1 {
        "Feb"@
    } else if m == 2 {
        "Mar"@
    } else if m == 3 {
        "Apr"@
    } else if m == 4 {
        "May"@
    } else if m == 5 {
        "Jun"@
    } else if m == 6 {
        "Jul"@
    } else if m == 7 {
        "Aug"@
    } else if m == 8 {
        "Sep"@
    } else if m == 9 {
        "Oct"@
    } else if m == 10 {
        "Nov"@
    } else {
        "Dec"@
    }
}

pub open spec fn abs_int(x: int) -> int {
    if x < 0 {
        -x
    } else {
        x
    }
}

/// The time column for a file modified at `secs` when the clock reads `now`
/// (when the clock cannot be read, `secs` itself stands for it); `local` is
/// the local broken-down time of `secs`, absent when it could not be computed.
pub open spec fn mtime_text(secs: i64, clock: Option<i64>, local: Option<LocalTime>) -> Seq<char> {
    let now = match clock {
        Some(n) => n,
        None => secs,
    };
    match local {
        None => signed_decimal(secs as int),
        Some(t) => {
            let head = month_name(t.month as int) + " "@ + pad_left(signed_decimal(t.day as int), 2, ' ');
            if abs_int(now - secs) > six_months() {
                head + "  "@ + signed_decimal(t.year + 1900)
            } else {
                head + " "@ + pad_left(signed_decimal(t.hour as int), 2, '0') + ":"@ + pad_left(
                    signed_decimal(t.minute as int),
                    2,
                    '0',
                )
            }
        },
    }
}

fn month_abbrev(m: i32) -> (res: &'static str)
    ensures
        res@ == month_name(m as int),
{
    if m <= 0 {
        "Jan"
    } else if m == 1 {
        "Feb"
    } else if m == 2 {
        "Mar"
    } else if m == 3 {
        "Apr"
    } else if m == 4 {
        "May"
    } else if m == 5 {
        "Jun"
    } else if m == 6 {
        "Jul"
    } else if m == 7 {
        "Aug"
    } else if m == 8 {
        "Sep"
    } else if m == 9 {
        "Oct"
    } else if m == 10 {
        "Nov"
    } else {
        "Dec"
    }
}

/// Formats a modification time as `Mon DD HH:MM`, or `Mon DD  YYYY` for files
/// more than about six months from `now`; without a local time, the plain
/// number of seconds.
pub fn format_mtime(secs: i64, clock: Option<i64>, local: Option<LocalTime>) -> (res: String)
    requires
        clock matches Some(now) ==> i64::MIN < now - secs <= i64::MAX,
    ensures
        res@ == mtime_text(secs, clock, local),
{
    let now = match clock {
        Some(n) => n,
        None => secs,
    };
    match local {
        None => i64_to_string(secs),
        Some(t) => {
            let mut out = String::from_str(month_abbrev(t.month));
            out.append(" ");
            let day = i64_to_string(t.day as i64);
            push_pad_left(&mut out, day.as_str(), 2, ' ');
            let diff: i64 = now - secs;
            let dist: i64 = if diff < 0 { -diff } else { diff };
            if dist > 15768000 {
                out.append("  ");
                push_signed_decimal(&mut out, t.year as i64 + 1900);
            } else {
                out.append(" ");
                let hour = i64_to_string(t.hour as i64);
                push_pad_left(&mut out, hour.as_str(), 2, '0');
                out.append(":");
                let minute = i64_to_string(t.minute as i64);
                push_pad_left(&mut out, minute.as_str(), 2, '0');
            }
            out
        },
    }
}

/// The month names of the calendar, January first.
pub open spec fn calendar_months() -> Seq<Seq<char>> {
    seq![
        seq!['J', 'a', 'n'],
        seq!['F', 'e', 'b'],
        seq!['M', 'a', 'r'],
        seq!['A', 'p', 'r'],
        seq!['M', 'a', 'y'],
        seq!['J', 'u', 'n'],
        seq!['J', 'u', 'l'],
        seq!['A', 'u', 'g'],
        seq!['S', 'e', 'p'],
        seq!['O', 'c', 't'],
        seq!['N', 'o', 'v'],
        seq!['D', 'e', 'c'],
    ]
}

/// Law: the month column names `tm_mon` (0 for January) by the calendar.
pub proof fn law_month_names_follow_calendar(m: int)
    requires
        0 <= m < 12,
    ensures
        month_name(m) == calendar_months()[m],
{
    reveal_strlit("Jan");
    reveal_strlit("Feb");
    reveal_strlit("Mar");
    reveal_strlit("Apr");
    reveal_strlit("May");
    reveal_strlit("Jun");
    reveal_strlit("Jul");
    reveal_strlit("Aug");
    reveal_strlit("Sep");
    reveal_strlit("Oct");
    reveal_strlit("Nov");
    reveal_strlit("Dec");
    let t = calendar_months();
    if m == 0 {
        assert(month_name(m) =~= t[0]);
    } else if m == 1 {
        assert(month_name(m) =~= t[1]);
    } else if m == 2 {
        assert(month_name(m) =~= t[2]);
    } else if m == 3 {
        assert(month_name(m) =~= t[3]);
    } else if m == 4 {
        assert(month_name(m) =~= t[4]);
    } else if m == 5 {
        assert(month_name(m) =~= t[5]);
    } else if m == 6 {
        assert(month_name(m) =~= t[6]);
    } else if m == 7 {
        assert(month_name(m) =~= t[7]);
    } else if m == 8 {
        assert(month_name(m) =~= t[8]);
    } else if m == 9 {
        assert(month_name(m) =~= t[9]);
    } else if m == 10 {
        assert(month_name(m) =~= t[10]);
    } else {
        assert(month_name(m) =~= t[11]);
    }
}

/// The ASCII digit for a value below ten.
pub open spec fn ascii_digit(d: int) -> char {
    ('0' as int + d) as char
}

proof fn lemma_small_decimal(n: int)
    requires
        0 <= n < 10000,
    ensures
        n < 10 ==> signed_decimal(n) == seq![ascii_digit(n)],
        10 <= n < 100 ==> signed_decimal(n) == seq![ascii_digit(n / 10), ascii_digit(n % 10)],
        1000 <= n ==> signed_decimal(n) == seq![
            ascii_digit(n / 1000),
            ascii_digit((n / 100) % 10),
            ascii_digit((n / 10) % 10),
            ascii_digit(n % 10),
        ],
{
    reveal_with_fuel(crate::num::decimal, 5);
    let k = n as nat;
    if n < 10 {
        assert(crate::num::decimal(k) =~= seq![ascii_digit(n)]);
    } else if n < 100 {
        assert(n / 10 < 10);
        assert(crate::num::decimal(k) =~= seq![ascii_digit(n / 10), ascii_digit(n % 10)]);
    } else if 1000 <= n {
        assert(n / 10 / 10 == n / 100);
        assert(n / 100 / 10 == n / 1000);
        assert(n / 1000 < 10);
        assert(crate::num::decimal(k) =~= seq![
            ascii_digit(n / 1000),
            ascii_digit((n / 100) % 10),
            ascii_digit((n / 10) % 10),
            ascii_digit(n % 10),
        ]);
    }
}

/// Law: the layout of the time column for a local time in range: the
/// calendar name of the month, a space, the day right-aligned in two
/// places; then for a time within half a year of now a space and `HH:MM`
/// with leading zeros, else two spaces and the four-digit year.
pub proof fn law_mtime_layout(secs: i64, clock: Option<i64>, t: LocalTime)
    requires
        0 <= t.month < 12,
        1 <= t.day <= 31,
        0 <= t.hour < 24,
        0 <= t.minute < 60,
        1000 <= t.year + 1900 <= 9999,
    ensures
        ({
            let r = mtime_text(secs, clock, Some(t));
            let now: int = match clock {
                Some(n) => n as int,
                None => secs as int,
            };
            let day = t.day as int;
            let hour = t.hour as int;
            let minute = t.minute as int;
            let year = t.year + 1900;
            &&& r.len() == 12
            &&& r.take(3) == calendar_months()[t.month as int]
            &&& r[3] == ' '
            &&& r[4] == (if day < 10 { ' ' } else { ascii_digit(day / 10) })
            &&& r[5] == ascii_digit(day % 10)
            &&& r[6] == ' '
            &&& (now - secs <= six_months() && secs - now <= six_months()) ==> {
                &&& r[7] == ascii_digit(hour / 10)
                &&& r[8] == ascii_digit(hour % 10)
                &&& r[9] == ':'
                &&& r[10] == ascii_digit(minute / 10)
                &&& r[11] == ascii_digit(minute % 10)
            }
            &&& !(now - secs <= six_months() && secs - now <= six_months()) ==> {
                &&& r[7] == ' '
                &&& r.skip(8) == seq![
                    ascii_digit(year / 1000),
                    ascii_digit((year / 100) % 10),
                    ascii_digit((year / 10) % 10),
                    ascii_digit(year % 10),
                ]
            }
        }),
{
    reveal_strlit(" ");
    reveal_strlit("  ");
    reveal_strlit(":");
    law_month_names_follow_calendar(t.month as int);
    let m = month_name(t.month as int);
    assert(m.len() == 3);
    let day = t.day as int;
    let hour = t.hour as int;
    let minute = t.minute as int;
    let year = t.year + 1900;
    lemma_small_decimal(day);
    lemma_small_decimal(hour);
    lemma_small_decimal(minute);
    lemma_small_decimal(year);
    let dd = pad_left(signed_decimal(day), 2, ' ');
    if day < 10 {
        assert(dd =~= seq![' ', ascii_digit(day)]);
        assert(day % 10 == day);
    } else {
        assert(dd =~= seq![ascii_digit(day / 10), ascii_digit(day % 10)]);
    }
    let hh = pad_left(signed_decimal(hour), 2, '0');
    if hour < 10 {
        assert(hh =~= seq![ascii_digit(hour / 10), ascii_digit(hour % 10)]);
    } else {
        assert(hh =~= seq![ascii_digit(hour / 10), ascii_digit(hour % 10)]);
    }
    let mm = pad_left(signed_decimal(minute), 2, '0');
    assert(mm =~= seq![ascii_digit(minute / 10), ascii_digit(minute % 10)]);
    let r = mtime_text(secs, clock, Some(t));
    let now: int = match clock {
        Some(n) => n as int,
        None => secs as int,
    };
    if abs_int(now - secs) > six_months() {
        assert(r == m + " "@ + dd + "  "@ + signed_decimal(year));
        assert(r.take(3) =~= m);
        assert(r.skip(8) =~= signed_decimal(year));
    } else {
        assert(r == m + " "@ + dd + " "@ + hh + ":"@ + mm);
        assert(r.take(3) =~= m);
    }
}

} // verus!
