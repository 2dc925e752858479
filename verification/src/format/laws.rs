//! What the texts for people say of the numbers, spans and dates behind them.

use super::{
    date_of, dates_are_unique, day_number, grouped, head_of, is_date, span_text, tail_of,
    two_digits, when_text,
};
use crate::text::{decimal, decimals_read_back, digit, number_in, padded_left};
use crate::time::{Duration, FileTime};
use vstd::prelude::*;

verus! {

/// The number that a text spells in decimal, with its commas passed over.
pub open spec fn count_in(text: Seq<char>) -> int
    decreases text.len(),
{
    if text.len() == 0 {
        0
    } else if text.last() == ',' {
        count_in(text.drop_last())
    } else {
        10 * count_in(text.drop_last()) + (text.last() as int - '0' as int)
    }
}

/// A count reads back as the number. It has a comma before each group of three digits from
/// the right, none in front, and digits everywhere else.
pub proof fn counts_read_back(n: nat)
    ensures
        count_in(grouped(n)) == n,
        grouped(n).len() > 0,
        forall|i: int|
            0 <= i < grouped(n).len() ==> (#[trigger] grouped(n)[i] == ',' <==> (grouped(n).len()
                - i) % 4 == 0),
        forall|i: int|
            0 <= i < grouped(n).len() && #[trigger] grouped(n)[i] != ',' ==> '0' <= grouped(n)[i]
                <= '9',
        n > 0 ==> grouped(n)[0] != '0' && grouped(n)[0] != ',',
    decreases n,
{
    if n < 1000 {
        decimals_read_back(n);
        plain_digits_count(decimal(n));
        three_digits_at_most(n);
    } else {
        counts_read_back(n / 1000);
        let front = grouped(n / 1000);
        let m = n % 1000;
        let back = padded_left(decimal(m), 3, '0');
        three_digits(m);
        let whole = front.push(',') + back;
        reveal_with_fuel(count_in, 5);
        assert(whole.drop_last().drop_last().drop_last() =~= front.push(','));
        assert(front.push(',').drop_last() =~= front);
        assert(whole[whole.len() - 1] == back[2]);
        assert(whole.drop_last().last() == back[1]);
        assert(whole.drop_last().drop_last().last() == back[0]);
        assert forall|i: int| 0 <= i < whole.len() implies (#[trigger] whole[i] == ',' <==> (
        whole.len() - i) % 4 == 0) && (whole[i] != ',' ==> '0' <= whole[i] <= '9') by {
            if i < front.len() {
                assert(whole[i] == front[i]);
            } else if i > front.len() {
                assert(whole[i] == back[i - front.len() - 1]);
            }
        }
        assert(whole[0] == front[0]);
    }
}

/// Without commas, the number is the one that the digits spell.
proof fn plain_digits_count(digits: Seq<char>)
    requires
        forall|i: int| 0 <= i < digits.len() ==> '0' <= #[trigger] digits[i] <= '9',
    ensures
        count_in(digits) == number_in(digits),
    decreases digits.len(),
{
    if digits.len() > 0 {
        assert forall|i: int| 0 <= i < digits.drop_last().len() implies '0'
            <= #[trigger] digits.drop_last()[i] <= '9' by {
            assert(digits.drop_last()[i] == digits[i]);
        }
        plain_digits_count(digits.drop_last());
        assert('0' <= digits[digits.len() - 1] <= '9');
    }
}

proof fn three_digits_at_most(n: nat)
    requires
        n < 1000,
    ensures
        decimal(n).len() <= 3,
{
    reveal_with_fuel(decimal, 3);
}

/// A number below a thousand in three digits.
proof fn three_digits(m: nat)
    requires
        m < 1000,
    ensures
        padded_left(decimal(m), 3, '0') == seq![
            digit((m / 100) as int),
            digit((m / 10 % 10) as int),
            digit((m % 10) as int),
        ],
{
    reveal_with_fuel(decimal, 3);
    let text = seq![
        digit((m / 100) as int),
        digit((m / 10 % 10) as int),
        digit((m % 10) as int),
    ];
    if m < 10 {
        assert(padded_left(decimal(m), 3, '0') =~= text);
    } else if m < 100 {
        assert(decimal(m) =~= seq![digit((m / 10) as int), digit((m % 10) as int)]);
        assert(padded_left(decimal(m), 3, '0') =~= text);
    } else {
        assert((m / 10) / 10 == m / 100);
        assert(decimal(m) =~= text);
        assert(padded_left(decimal(m), 3, '0') =~= text);
    }
}

/// A number below a hundred in two digits, which read back as the number.
pub proof fn two_digits_read_back(n: nat)
    requires
        n < 100,
    ensures
        two_digits(n).len() == 2,
        number_in(two_digits(n)) == n,
        forall|i: int| 0 <= i < 2 ==> '0' <= #[trigger] two_digits(n)[i] <= '9',
{
    reveal_with_fuel(decimal, 2);
    reveal_with_fuel(number_in, 3);
    let text = seq![digit((n / 10) as int), digit((n % 10) as int)];
    assert(two_digits(n) =~= text);
    assert(text.drop_last().drop_last() =~= Seq::empty());
    assert(text.drop_last().last() == digit((n / 10) as int));
}

/// A span of hours, minutes and seconds is shown by its hours, minutes and seconds, without
/// hours where there are none; a span of less than a minute by its seconds and tenths.
pub proof fn spans_are_shown_by_their_parts(d: Duration, h: nat, m: nat, s: nat, tenths: nat)
    requires
        m < 60,
        s < 60,
        h * 3600 + m * 60 + s == d.secs,
        tenths * 100_000_000 <= d.nanos < (tenths + 1) * 100_000_000,
    ensures
        h > 0 ==> span_text(d) == decimal(h) + "h "@ + two_digits(m) + "m "@ + two_digits(s)
            + "s"@,
        h == 0 && m > 0 ==> span_text(d) == decimal(m) + "m "@ + two_digits(s) + "s"@,
        h == 0 && m == 0 ==> span_text(d) == decimal(s) + "."@ + decimal(tenths) + "s"@,
{
    let secs = d.secs as nat;
    assert(secs / 3600 == h && secs % 3600 == m * 60 + s);
    assert(secs % 3600 / 60 == m && secs % 60 == s);
    assert((d.nanos / 100_000_000) as nat == tenths);
    reveal_strlit(".");
    assert(decimal(s) + "."@ =~= decimal(s).push('.'));
}

/// The calendar: months have 31 or 30 days, but for February, which has 28 and in leap years
/// 29; each day is followed by the next one, and the count starts on the first of January
/// 1970.
pub proof fn days_follow_each_other(y: int, m: int, d: int)
    requires
        1 <= m <= 12,
    ensures
        ({
            let leap = y % 4 == 0 && (y % 100 != 0 || y % 400 == 0);
            let last: int = if m == 2 {
                if leap {
                    29
                } else {
                    28
                }
            } else if m == 4 || m == 6 || m == 9 || m == 11 {
                30
            } else {
                31
            };
            &&& is_date(y, m, d) <==> 1 <= d <= last
            &&& d < last ==> day_number(y, m, d + 1) == day_number(y, m, d) + 1
            &&& m < 12 ==> day_number(y, m + 1, 1) == day_number(y, m, last) + 1
            &&& m == 12 ==> day_number(y + 1, 1, 1) == day_number(y, m, last) + 1
        }),
        day_number(1970, 1, 1) == 0,
{
    super::leap_years_step(y);
}

/// A point in time is shown by its year, month, day, hour and minute in UTC.
pub proof fn times_are_shown_by_their_date(
    t: FileTime,
    y: int,
    m: int,
    d: int,
    hour: int,
    minute: int,
    rest: int,
)
    requires
        is_date(y, m, d),
        0 <= hour < 24,
        0 <= minute < 60,
        0 <= rest < 60_000_000_000,
        t.at() >= 0,
        t.at() == ((day_number(y, m, d) * 24 + hour) * 60 + minute) * 60_000_000_000 + rest,
    ensures
        when_text(Some(t)) == padded_left(decimal(y as nat), 4, '0') + "-"@ + two_digits(m as nat)
            + "-"@ + two_digits(d as nat) + " "@ + two_digits(hour as nat) + ":"@ + two_digits(
            minute as nat,
        ),
        when_text(None) == "—"@,
{
    let days = day_number(y, m, d);
    let secs = t.at() / 1_000_000_000;
    assert(secs == ((days * 24 + hour) * 60 + minute) * 60 + rest / 1_000_000_000);
    assert(secs / 86_400 == days);
    let time = secs % 86_400;
    assert(time == hour * 3600 + minute * 60 + rest / 1_000_000_000);
    assert(time / 3600 == hour && time % 3600 / 60 == minute);
    let date = date_of(days);
    assert(is_date((y, m, d).0, (y, m, d).1, (y, m, d).2) && day_number(
        (y, m, d).0,
        (y, m, d).1,
        (y, m, d).2,
    ) == days);
    dates_are_unique(y, m, d, date.0, date.1, date.2);
    reveal_strlit("-");
    reveal_strlit(" ");
    reveal_strlit(":");
    assert(when_text(Some(t)) =~= padded_left(decimal(y as nat), 4, '0') + "-"@ + two_digits(
        m as nat,
    ) + "-"@ + two_digits(d as nat) + " "@ + two_digits(hour as nat) + ":"@ + two_digits(
        minute as nat,
    ));
}

/// A path that is too long keeps its end, and any other text its start; an ellipsis stands
/// for what was cut off.
pub proof fn a_cut_keeps_what_counts(text: Seq<char>, width: int, i: int)
    requires
        0 < width < text.len(),
        0 <= i < width - 1,
    ensures
        tail_of(text, width)[width - 1 - i] == text[text.len() - 1 - i],
        tail_of(text, width)[0] == '…',
        head_of(text, width)[i] == text[i],
        head_of(text, width)[width - 1] == '…',
{
}

} // verus!
