//! Calendar dates from Unix timestamps.

use vstd::prelude::*;
use vstd::string::StrSliceExecFns;

verus! {

/// Whether a year of the Gregorian calendar has 366 days.
pub open spec fn is_leap_year(year: int) -> bool {
    (year % 4 == 0 && year % 100 != 0) || year % 400 == 0
}

/// The number of days of a year.
pub open spec fn days_in_year(year: int) -> int {
    if is_leap_year(year) {
        366
    } else {
        365
    }
}

/// The number of days of a month, January being 1.
pub open spec fn days_in_month(year: int, month: int) -> int {
    if month == 2 {
        if is_leap_year(year) {
            29
        } else {
            28
        }
    } else if month == 4 || month == 6 || month == 9 || month == 11 {
        30
    } else {
        31
    }
}

/// The number of days from 1 January 1970 to 1 January of `year`.
pub open spec fn days_before_year(year: int) -> int
    decreases year - 1970,
{
    if year <= 1970 {
        0
    } else {
        days_before_year(year - 1) + days_in_year(year - 1)
    }
}

/// The number of days from 1 January of `year` to the first of `month`.
pub open spec fn days_before_month(year: int, month: int) -> int
    decreases month,
{
    if month <= 1 {
        0
    } else {
        days_before_month(year, month - 1) + days_in_month(year, month - 1)
    }
}

/// Whether the day that lies `days` days after 1 January 1970 is the `day`th
/// of `month` of `year`.
pub open spec fn is_date_of(days: int, year: int, month: int, day: int) -> bool {
    &&& 1970 <= year
    &&& 1 <= month <= 12
    &&& 1 <= day <= days_in_month(year, month)
    &&& days == days_before_year(year) + days_before_month(year, month) + day - 1
}

/// The whole days of a timestamp in seconds, as a signed 32-bit count holds
/// them: from 2^31 days on the count is off by a multiple of 2^32.
pub open spec fn day_count(timestamp: u64) -> int {
    let low = (timestamp / 86400) % 0x1_0000_0000;
    if low >= 0x8000_0000 {
        low - 0x1_0000_0000
    } else {
        low as int
    }
}

/// The month that `timestamp_to_date_fixed` reports for a date of the given
/// month: the number of months of the year that are over, and 1 in January.
pub open spec fn reported_month(month: int) -> int {
    if month <= 1 {
        1
    } else {
        month - 1
    }
}

/// A year has as many days as its twelve months.
proof fn lemma_months_fill_year(year: int)
    ensures
        days_before_month(year, 13) == days_in_year(year),
{
    reveal_with_fuel(days_before_month, 14);
}

/// Later years begin later, by at least a year's days for each year between.
pub proof fn lemma_years_begin_in_order(earlier: int, later: int)
    requires
        1970 <= earlier < later,
    ensures
        days_before_year(earlier) + days_in_year(earlier) <= days_before_year(later),
    decreases later - earlier,
{
    if earlier + 1 < later {
        lemma_years_begin_in_order(earlier, later - 1);
    }
}

/// Later months begin later, by at least a month's days for each month
/// between.
pub proof fn lemma_months_begin_in_order(year: int, earlier: int, later: int)
    requires
        1 <= earlier < later,
    ensures
        days_before_month(year, earlier) + days_in_month(year, earlier) <= days_before_month(
            year,
            later,
        ),
    decreases later - earlier,
{
    if earlier + 1 < later {
        lemma_months_begin_in_order(year, earlier, later - 1);
    }
}

/// A day has one date only.
pub proof fn law_date_is_unique(
    days: int,
    year: int,
    month: int,
    day: int,
    other_year: int,
    other_month: int,
    other_day: int,
)
    requires
        is_date_of(days, year, month, day),
        is_date_of(days, other_year, other_month, other_day),
    ensures
        year == other_year,
        month == other_month,
        day == other_day,
{
    lemma_months_fill_year(year);
    lemma_months_fill_year(other_year);
    if month < 12 {
        lemma_months_begin_in_order(year, month, 13);
    }
    if other_month < 12 {
        lemma_months_begin_in_order(other_year, other_month, 13);
    }
    reveal_with_fuel(days_before_month, 2);
    assert(days_before_month(year, 13) == days_before_month(year, 12) + days_in_month(year, 12));
    assert(days_before_month(other_year, 13) == days_before_month(other_year, 12) + days_in_month(
        other_year,
        12,
    ));
    assert(0 <= days_before_month(year, month)) by {
        if month > 1 {
            lemma_months_begin_in_order(year, 1, month);
        }
    }
    assert(0 <= days_before_month(other_year, other_month)) by {
        if other_month > 1 {
            lemma_months_begin_in_order(other_year, 1, other_month);
        }
    }
    if year < other_year {
        lemma_years_begin_in_order(year, other_year);
    } else if other_year < year {
        lemma_years_begin_in_order(other_year, year);
    } else if month < other_month {
        lemma_months_begin_in_order(year, month, other_month);
    } else if other_month < month {
        lemma_months_begin_in_order(year, other_month, month);
    }
}

/// The year, month and day of a Unix timestamp, as `(year, month, day)`.
/// The year and the day of the month are those of the date in UTC; the month
/// is one behind from February on (see `reported_month`). A day count that is
/// not positive gives 1 January 1970.
pub fn timestamp_to_date_fixed(timestamp: u64) -> (r: (u32, u32, u32))
    ensures
        day_count(timestamp) <= 0 ==> r == (1970u32, 1u32, 1u32),
        day_count(timestamp) > 0 ==> exists|month: int|
            #![trigger reported_month(month)]
            r.1 == reported_month(month) && is_date_of(
                day_count(timestamp),
                r.0 as int,
                month,
                r.2 as int,
            ),
{
    let low = (timestamp / 86400) % 0x1_0000_0000;
    if low >= 0x8000_0000 {
        return (1970, 1, 1);
    }
    let ghost days = low as int;
    let mut year: u32 = 1970;
    let mut month: u32 = 1;
    let mut day: u32 = 1;
    let mut days_remaining: u32 = low as u32;
    let ghost mut found = false;
    let ghost mut true_month: int = 1;
    assert(is_date_of(0, 1970, 1, 1));
    while days_remaining > 0
        invariant
            0 <= days < 0x8000_0000,
            days == day_count(timestamp),
            found ==> days > 0,
            1970 <= year,
            (year - 1970) * 365 <= days - days_remaining,
            !found ==> days == days_before_year(year as int) + days_remaining && month == 1 && day
                == 1,
            found ==> days_remaining == 0 && is_date_of(days, year as int, true_month, day as int)
                && month == reported_month(true_month),
        decreases days_remaining,
    {
        let leap_year = (year % 4 == 0 && year % 100 != 0) || (year % 400 == 0);
        let days_in_this_year: u32 = if leap_year {
            366
        } else {
            365
        };
        if days_remaining >= days_in_this_year {
            days_remaining -= days_in_this_year;
            year += 1;
        } else {
            let feb_days: u32 = if leap_year {
                29
            } else {
                28
            };
            let month_days: [u32; 12] = [31, feb_days, 31, 30, 31, 30, 31, 31, 30, 31, 30, 31];
            let ghost rest = days_remaining as int;
            let mut m: usize = 0;
            proof {
                lemma_months_fill_year(year as int);
            }
            while m < 12
                invariant_except_break
                    m <= 12,
                    !found,
                    rest == days_before_month(year as int, m + 1) + days_remaining,
                    month == reported_month(m + 1),
                invariant
                    1970 <= year,
                    0 <= rest < days_in_year(year as int),
                    days == days_before_year(year as int) + rest,
                    days_before_month(year as int, 13) == days_in_year(year as int),
                    forall|k: int| 0 <= k < 12 ==> #[trigger] month_days[k] == days_in_month(
                        year as int,
                        k + 1,
                    ),
                ensures
                    found,
                    days_remaining == 0,
                    is_date_of(days, year as int, true_month, day as int),
                    month == reported_month(true_month),
                decreases 12 - m,
            {
                let days_this_month = month_days[m];
                proof {
                    reveal_with_fuel(days_before_month, 2);
                    assert(days_before_month(year as int, m + 2) == days_before_month(
                        year as int,
                        m + 1,
                    ) + days_in_month(year as int, m + 1));
                }
                if days_remaining >= days_this_month {
                    days_remaining -= days_this_month;
                    month = m as u32 + 1;
                    proof {
                        if m == 11 {
                            assert(rest >= days_before_month(year as int, 13));
                        }
                    }
                } else {
                    day = days_remaining + 1;
                    days_remaining = 0;
                    proof {
                        found = true;
                        true_month = m + 1;
                    }
                    break ;
                }
                m += 1;
            }
        }
    }
    proof {
        if !found {
            assert(days == days_before_year(year as int));
            reveal_with_fuel(days_before_month, 2);
            assert(is_date_of(days, year as int, 1, 1));
            true_month = 1;
        }
        assert(is_date_of(day_count(timestamp), year as int, true_month, day as int));
        assert(month == reported_month(true_month));
    }
    (year, month, day)
}

/// Whether a text has the shape of a date written as `YYYY-MM-DD`: it takes
/// ten bytes in UTF-8, and its fifth and eighth characters are hyphens. Nothing is
/// asked of the other characters.
pub open spec fn is_date_shaped(text: &str) -> bool {
    &&& text.len() == 10
    &&& text@.len() > 7
    &&& text@[4] == '-'
    &&& text@[7] == '-'
}

/// Whether a text has the shape of a date; see `is_date_shaped`.
pub fn is_date_like(text: &str) -> (r: bool)
    ensures
        r == is_date_shaped(text),
{
    text.len() == 10 && text.unicode_len() > 7 && text.get_char(4) == '-' && text.get_char(7)
        == '-'
}

} // verus!
