//! What dates and timestamps can be relied on for.

use vstd::prelude::*;

use crate::date;
use crate::numbers;
use crate::text;

verus! {

/// A number is written with as many digits as it needs, and zeros before them up to
/// the width, and reads back.
pub proof fn law_padding_adds_zeros_only(n: nat, width: int)
    requires
        0 <= width <= 4,
    ensures
        date::padded(n, width).len() >= width,
        text::spelled(date::padded(n, width), 10) == Some(n as int),
        text::decimal(n).is_suffix_of(date::padded(n, width)),
        text::decimal(n).len() >= width ==> date::padded(n, width) == text::decimal(n),
{
    text::law_a_number_reads_back(n);
    let d = text::decimal(n);
    let p = date::padded(n, width);
    if d.len() < width {
        let zeros = Seq::new((width - d.len()) as nat, |i: int| '0');
        lemma_leading_zeros(zeros, d);
        assert(d =~= p.subrange(p.len() - d.len(), p.len() as int));
    } else {
        assert(d =~= p.subrange(0, p.len() as int));
    }
}

proof fn lemma_leading_zeros(zeros: Seq<char>, d: Seq<char>)
    requires
        forall|i: int| 0 <= i < zeros.len() ==> #[trigger] zeros[i] == '0',
    ensures
        text::spelled(zeros + d, 10) == text::spelled(d, 10),
    decreases zeros.len() + d.len(),
{
    let s = zeros + d;
    if d.len() > 0 {
        lemma_leading_zeros(zeros, d.drop_last());
        assert(s.drop_last() =~= zeros + d.drop_last());
        assert(s.last() == d.last());
    } else if zeros.len() > 0 {
        let front = zeros.drop_last();
        lemma_leading_zeros(front, d);
        assert(s.drop_last() =~= front + d);
        assert(s.last() == zeros[zeros.len() - 1]);
    } else {
        assert(s =~= d);
    }
}

proof fn lemma_clock(days: int, hour: int, minute: int, second: int)
    requires
        0 <= days,
        0 <= hour < 24,
        0 <= minute < 60,
        0 <= second < 60,
    ensures
        ({
            let secs = days * 86400 + hour * 3600 + minute * 60 + second;
            &&& secs / 86400 == days
            &&& (secs % 86400) / 3600 == hour
            &&& (secs % 3600) / 60 == minute
            &&& secs % 60 == second
        }),
{
    let clock = hour * 3600 + minute * 60 + second;
    let rest = minute * 60 + second;
    let secs = days * 86400 + clock;
    numbers::lemma_shift(days, clock, 86400);
    assert(86400 * days + clock == secs);
    assert(clock / 86400 == 0 && clock % 86400 == clock);
    numbers::lemma_shift(hour, rest, 3600);
    assert(3600 * hour + rest == clock);
    assert(rest / 3600 == 0);
    numbers::lemma_shift(days * 24 + hour, rest, 3600);
    assert(3600 * (days * 24 + hour) + rest == secs);
    assert(rest % 3600 == rest);
    numbers::lemma_shift(minute, second, 60);
    assert(60 * minute + second == rest);
    assert(second / 60 == 0 && second % 60 == second);
    numbers::lemma_shift(days * 1440 + hour * 60 + minute, second, 60);
    assert(60 * (days * 1440 + hour * 60 + minute) + second == secs);
}

/// A stamp tells the date of its day and the hour, minute and second within it.
pub proof fn law_a_stamp_tells_its_second(
    s: Seq<char>,
    year: int,
    month: int,
    day: int,
    hour: int,
    minute: int,
    second: int,
)
    requires
        date::is_date(year, month, day),
        date::day_number(year, month, day) >= 0,
        0 <= hour < 24,
        0 <= minute < 60,
        0 <= second < 60,
        date::is_stamp(s, date::day_number(year, month, day) * 86400 + hour * 3600 + minute * 60 + second),
    ensures
        s == date::padded(year as nat, 4) + "-"@ + date::padded(month as nat, 2) + "-"@ + date::padded(day as nat, 2)
            + "T"@ + date::padded(hour as nat, 2) + ":"@ + date::padded(minute as nat, 2) + ":"@ + date::padded(
            second as nat,
            2,
        ) + "Z"@,
{
    let days = date::day_number(year, month, day);
    let secs = days * 86400 + hour * 3600 + minute * 60 + second;
    lemma_clock(days, hour, minute, second);
    let (y, m, d) = choose|y: int, m: int, d: int|
        {
            &&& date::is_date(y, m, d)
            &&& date::day_number(y, m, d) == secs / 86400
            &&& s == #[trigger] date::moment(y, m, d, secs)
        };
    date::law_a_day_has_one_date(y, m, d, year, month, day);
}

/// Days follow each other: from the first of January 1970, which is day zero, one
/// day after the other, from the last of a month to the first of the next, and from
/// the last of a year to the first of the next.
pub proof fn law_days_follow_each_other(year: int, month: int, day: int)
    requires
        date::is_date(year, month, day),
    ensures
        date::day_number(1970, 1, 1) == 0,
        date::is_date(year, month, day + 1) ==> date::day_number(year, month, day + 1) == date::day_number(
            year,
            month,
            day,
        ) + 1,
        !date::is_date(year, month, day + 1) && month < 12 ==> date::is_date(year, month + 1, 1) && date::day_number(
            year,
            month + 1,
            1,
        ) == date::day_number(year, month, day) + 1,
        !date::is_date(year, month, day + 1) && month == 12 ==> date::is_date(year + 1, 1, 1) && date::day_number(
            year + 1,
            1,
            1,
        ) == date::day_number(year, month, day) + 1,
{
    date::lemma_months(year);
    date::lemma_months(year + 1);
    date::lemma_within_year(year, month, day);
    date::law_years_are_contiguous(year);
}

/// The months of the Gregorian calendar: a thirty-first day in January, March, May,
/// July, August, October and December, a thirtieth in all but February, and a
/// twenty-ninth there in every fourth year, but not in the hundredth unless it is a
/// four hundredth.
pub proof fn law_the_months_are_gregorian(year: int, month: int, day: int)
    ensures
        date::is_date(year, month, day) ==> 1 <= month <= 12 && 1 <= day <= 31,
        1 <= month <= 12 && 1 <= day <= 28 ==> date::is_date(year, month, day),
        1 <= month <= 12 && month != 2 ==> date::is_date(year, month, 29) && date::is_date(year, month, 30),
        date::is_date(year, month, 31) <==> seq![1int, 3, 5, 7, 8, 10, 12].contains(month),
        !date::is_date(year, 2, 30),
        date::is_date(year, 2, 29) <==> year % 400 == 0 || (year % 4 == 0 && year % 100 != 0),
{
    let long = seq![1int, 3, 5, 7, 8, 10, 12];
    assert(long[0] == 1 && long[1] == 3 && long[2] == 5 && long[3] == 7 && long[4] == 8 && long[5]
        == 10 && long[6] == 12);
}

} // verus!
