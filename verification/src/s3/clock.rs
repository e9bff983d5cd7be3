//! The calendar date of a moment, as requests are stamped with it.

use vstd::prelude::*;

use crate::text::{decimal, push_decimal};

verus! {

/// Whether a year has a 29th of February.
pub open spec fn leap(y: nat) -> bool {
    y % 4 == 0 && (y % 100 != 0 || y % 400 == 0)
}

pub open spec fn year_days(y: nat) -> nat {
    if leap(y) {
        366
    } else {
        365
    }
}

pub open spec fn month_days(y: nat, m: nat) -> nat {
    if m == 2 {
        if leap(y) {
            29
        } else {
            28
        }
    } else if m == 4 || m == 6 || m == 9 || m == 11 {
        30
    } else {
        31
    }
}

/// The days from the start of the year 0 to the start of a year.
pub open spec fn days_before_year(y: nat) -> nat
    decreases y,
{
    if y == 0 {
        0
    } else {
        days_before_year((y - 1) as nat) + year_days((y - 1) as nat)
    }
}

/// The days from the start of a year to the start of a month of it.
pub open spec fn days_before_month(y: nat, m: nat) -> nat
    decreases m,
{
    if m <= 1 {
        0
    } else {
        days_before_month(y, (m - 1) as nat) + month_days(y, (m - 1) as nat)
    }
}

pub open spec fn is_date(y: nat, m: nat, d: nat) -> bool {
    1 <= m <= 12 && 1 <= d <= month_days(y, m)
}

/// The days from the first of January 1970 to a date.
pub open spec fn day_number(y: nat, m: nat, d: nat) -> int {
    days_before_year(y) + days_before_month(y, m) + d - 1 - days_before_year(1970)
}

/// A date as the algorithm below finds it.
pub struct Date {
    pub year: u64,
    pub month: u64,
    pub day: u64,
}

impl Date {
    pub open spec fn of_day(&self, days: nat) -> bool {
        is_date(self.year as nat, self.month as nat, self.day as nat) && day_number(
            self.year as nat,
            self.month as nat,
            self.day as nat,
        ) == days
    }
}

proof fn lemma_year(y: nat)
    ensures
        days_before_year(y) == 365 * y + (y + 3) / 4 - (y + 99) / 100 + (y + 399) / 400,
    decreases y,
{
    if y > 0 {
        let p = (y - 1) as nat;
        lemma_year(p);
        lemma_multiples(p, 4);
        lemma_multiples(p, 100);
        lemma_multiples(p, 400);
        assert(p % 400 == 0 ==> p % 100 == 0);
        assert(p % 100 == 0 ==> p % 4 == 0);
    }
}

/// How many multiples of a number lie below the next one.
proof fn lemma_multiples(p: nat, k: nat)
    requires
        k == 4 || k == 100 || k == 400,
    ensures
        (p + 1 + (k - 1)) / k as int == (p + (k - 1)) / k as int + (if p % k == 0 {
            1int
        } else {
            0int
        }),
{
    if k == 4 {
        assert((p + 4) / 4 == (p + 3) / 4 + (if p % 4 == 0 {
            1int
        } else {
            0int
        }));
    } else if k == 100 {
        assert((p + 100) / 100 == (p + 99) / 100 + (if p % 100 == 0 {
            1int
        } else {
            0int
        }));
    } else {
        assert((p + 400) / 400 == (p + 399) / 400 + (if p % 400 == 0 {
            1int
        } else {
            0int
        }));
    }
}

proof fn lemma_months(y: nat)
    ensures
        days_before_month(y, 1) == 0,
        days_before_month(y, 2) == 31,
        days_before_month(y, 3) == 59 + (if leap(y) {
            1nat
        } else {
            0nat
        }),
        forall|m: nat|
            3 <= m <= 12 ==> #[trigger] days_before_month(y, m) == days_before_month(y, 3) + (153 * (
            m - 3) + 2) / 5,
{
    reveal_with_fuel(days_before_month, 13);
    assert forall|m: nat| 3 <= m <= 12 implies #[trigger] days_before_month(y, m)
        == days_before_month(y, 3) + (153 * (m - 3) + 2) / 5 by {
        if m == 3 {
        } else if m == 4 {
        } else if m == 5 {
        } else if m == 6 {
        } else if m == 7 {
        } else if m == 8 {
        } else if m == 9 {
        } else if m == 10 {
        } else if m == 11 {
        } else {
            assert(m == 12);
        }
    }
}

/// A day of an era of 400 years, counted from its first of March, by year and day of the year.
proof fn lemma_era(doe: nat) -> (r: (nat, nat))
    requires
        doe < 146_097,
    ensures
        r.0 == (doe - doe / 1460 + doe / 36_524 - doe / 146_096) / 365,
        r.0 <= 399,
        doe == 365 * r.0 + r.0 / 4 - r.0 / 100 + r.1,
        r.1 <= 365,
        r.1 == 365 ==> leap(r.0 + 1),
{
    let yoe = (doe - doe / 1460 + doe / 36_524 - doe / 146_096) / 365;
    let doy = doe - (365 * yoe + yoe / 4 - yoe / 100);
    assert(yoe <= 399);
    assert(doy >= 0);
    assert(doy <= 365);
    assert(doy == 365 ==> leap((yoe + 1) as nat));
    (yoe as nat, doy as nat)
}

/// The days up to the first of March of a year, counted from that of the year 0.
proof fn lemma_march(era: nat, yoe: nat)
    requires
        yoe <= 399,
    ensures
        ({
            let y = yoe + 400 * era;
            &&& leap(y) == leap(yoe)
            &&& leap(y + 1) == leap(yoe + 1)
            &&& days_before_year(y) + days_before_month(y, 3) == 60 + 146_097 * era + 365 * yoe + yoe
                / 4 - yoe / 100
            &&& days_before_year(y + 1) == days_before_year(y) + year_days(y)
        }),
{
    let y = yoe + 400 * era;
    lemma_year(y);
    lemma_months(y);
    assert(y % 4 == yoe % 4) by (nonlinear_arith)
        requires
            y == yoe + 400 * era,
    ;
    assert(y % 100 == yoe % 100) by (nonlinear_arith)
        requires
            y == yoe + 400 * era,
    ;
    assert(y % 400 == yoe % 400) by (nonlinear_arith)
        requires
            y == yoe + 400 * era,
    ;
    assert((y + 1) % 4 == (yoe + 1) % 4);
    assert((y + 1) % 100 == (yoe + 1) % 100);
    assert((y + 1) % 400 == (yoe + 1) % 400);
    assert((y + 3) / 4 == (yoe + 3) / 4 + 100 * era);
    assert((y + 99) / 100 == (yoe + 99) / 100 + 4 * era);
    assert((y + 399) / 400 == (yoe + 399) / 400 + era);
}

proof fn lemma_epoch()
    ensures
        days_before_year(1970) == 719_528,
{
    lemma_year(1970);
}

/// Finds the date of a day, counted from the first of January 1970.
pub fn civil(days: u64) -> (r: Date)
    requires
        days <= 1_000_000_000_000_000,
    ensures
        r.of_day(days as nat),
{
    let z: u64 = days + 719_468;
    let era: u64 = z / 146_097;
    let doe: u64 = z % 146_097;
    let yoe: u64 = (doe - doe / 1460 + doe / 36_524 - doe / 146_096) / 365;
    proof {
        lemma_era(doe as nat);
    }
    let y: u64 = yoe + era * 400;
    let doy: u64 = doe - (365 * yoe + yoe / 4 - yoe / 100);
    let mp: u64 = (5 * doy + 2) / 153;
    let day: u64 = doy - (153 * mp + 2) / 5 + 1;
    let month: u64 = if mp < 10 {
        mp + 3
    } else {
        mp - 9
    };
    let year: u64 = if month <= 2 {
        y + 1
    } else {
        y
    };
    proof {
        lemma_march(era as nat, yoe as nat);
        lemma_months(y as nat);
        lemma_months((y + 1) as nat);
        lemma_epoch();
        assert(z == 146_097 * era + doe);
        assert(mp <= 11);
        if mp < 10 {
            assert(days_before_month(y as nat, month as nat) == days_before_month(y as nat, 3)
                + (153 * mp + 2) / 5);
        } else if mp == 10 {
            assert(month == 1);
        } else {
            assert(month == 2);
        }
    }
    Date { year, month, day }
}

// ---- the stamp ---------------------------------------------------------------------------------

pub open spec fn zeros(n: nat) -> Seq<char> {
    Seq::new(n, |i: int| '0')
}

/// A number with zeros before it, to a width.
pub open spec fn padded(n: nat, width: nat) -> Seq<char> {
    let digits = decimal(n);
    if digits.len() >= width {
        digits
    } else {
        zeros((width - digits.len()) as nat) + digits
    }
}

/// Appends a number with zeros before it, to a width.
pub fn push_padded(out: &mut String, n: u64, width: usize)
    ensures
        final(out)@ == old(out)@ + padded(n as nat, width as nat),
{
    let mut digits = String::new();
    push_decimal(&mut digits, n);
    assert(digits@ =~= decimal(n as nat));
    let len: usize = digits.as_str().unicode_len();
    let mut left: usize = if len >= width {
        0
    } else {
        width - len
    };
    let ghost missing = left;
    let ghost before = out@;
    assert(out@ =~= before + zeros(0));
    while left > 0
        invariant
            left <= missing,
            out@ == before + zeros((missing - left) as nat),
        decreases left,
    {
        let ghost here = out@;
        out.push('0');
        assert(out@ =~= before + zeros((missing - left + 1) as nat));
        left = left - 1;
    }
    out.append(digits.as_str());
    assert(out@ =~= before + padded(n as nat, width as nat));
}

pub open spec fn day_stamp(date: Date) -> Seq<char> {
    padded(date.year as nat, 4) + padded(date.month as nat, 2) + padded(date.day as nat, 2)
}

/// A moment of a day: hours, minutes and seconds.
pub open spec fn time_stamp(rest: nat) -> Seq<char> {
    padded(rest / 3600, 2) + padded((rest % 3600) / 60, 2) + padded(rest % 60, 2)
}

/// Whether these are the two stamps of a moment: `YYYYMMDDTHHMMSSZ` and `YYYYMMDD`.
pub open spec fn stamps(secs: nat, full: Seq<char>, day: Seq<char>) -> bool {
    exists|date: Date| #[trigger]
        date.of_day(secs / 86_400) && day == day_stamp(date) && full == day_stamp(date) + seq!['T']
            + time_stamp(secs % 86_400) + seq!['Z']
}

/// The stamps of a moment, in seconds since the start of 1970, in UTC.
pub fn amz_timestamp(secs: u64) -> (r: (String, String))
    ensures
        stamps(secs as nat, r.0@, r.1@),
{
    let date = civil(secs / 86_400);
    let rest: u64 = secs % 86_400;
    let mut day = String::new();
    push_padded(&mut day, date.year, 4);
    push_padded(&mut day, date.month, 2);
    push_padded(&mut day, date.day, 2);
    assert(day@ =~= day_stamp(date));
    let mut full = day.clone();
    full.push('T');
    push_padded(&mut full, rest / 3600, 2);
    push_padded(&mut full, (rest % 3600) / 60, 2);
    push_padded(&mut full, rest % 60, 2);
    full.push('Z');
    proof {
        assert(full@ =~= day_stamp(date) + seq!['T'] + time_stamp(rest as nat) + seq!['Z']);
        assert(date.of_day(secs as nat / 86_400));
    }
    (full, day)
}

// ---- laws --------------------------------------------------------------------------------------

proof fn lemma_years_grow(a: nat, b: nat)
    requires
        a < b,
    ensures
        days_before_year(a) + year_days(a) <= days_before_year(b),
    decreases b,
{
    if a + 1 < b {
        lemma_years_grow(a, (b - 1) as nat);
    }
}

proof fn lemma_months_fit(y: nat, m: nat, d: nat)
    requires
        is_date(y, m, d),
    ensures
        days_before_month(y, m) + d <= year_days(y),
{
    lemma_months(y);
    reveal_with_fuel(days_before_month, 3);
}

proof fn lemma_months_grow(y: nat, a: nat, b: nat)
    requires
        1 <= a < b,
    ensures
        days_before_month(y, a) + month_days(y, a) <= days_before_month(y, b),
    decreases b,
{
    if a + 1 < b {
        lemma_months_grow(y, a, (b - 1) as nat);
    }
}

/// A day has one date.
pub proof fn law_a_day_has_one_date(one: Date, other: Date, days: nat)
    requires
        one.of_day(days),
        other.of_day(days),
    ensures
        one == other,
{
    lemma_months_fit(one.year as nat, one.month as nat, one.day as nat);
    lemma_months_fit(other.year as nat, other.month as nat, other.day as nat);
    if one.year < other.year {
        lemma_years_grow(one.year as nat, other.year as nat);
    } else if other.year < one.year {
        lemma_years_grow(other.year as nat, one.year as nat);
    } else if one.month < other.month {
        lemma_months_grow(one.year as nat, one.month as nat, other.month as nat);
    } else if other.month < one.month {
        lemma_months_grow(one.year as nat, other.month as nat, one.month as nat);
    }
}

} // verus!
