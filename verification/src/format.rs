//! Display helpers. Everything here is lossy-safe: paths are not guaranteed to
//! be UTF-8.

pub mod laws;

use crate::path::laws::{rejoining_gives_the_path_back, rest_is_utf8};
use crate::path::{below, components, is_absolute, joined, lies_in, FilePath, DOT, SLASH};
use crate::text::{
    chars_of, decimal, decimal_text, displayed, pad_left, padded_left, text_from, text_of,
};
use crate::time::{Duration, FileTime};
use vstd::prelude::*;
use vstd::utf8::{encode_utf8, valid_utf8};

verus! {

/// What `humansize::format_size` writes for a number of bytes with its `BINARY`
/// settings, such as "412.3 MiB".
pub uninterp spec fn size_text(n: u64) -> Seq<char>;

/// `humansize::format_size` with `BINARY`: a size for people. Its text depends
/// on the number alone; how it rounds is left to the named result.
#[verifier::external_body]
pub fn bytes(n: u64) -> (s: String)
    ensures
        s@ == size_text(n),
{
    humansize::format_size(n, humansize::BINARY)
}

/// The number in decimal with a comma before each group of three digits.
pub open spec fn grouped(n: nat) -> Seq<char>
    decreases n,
{
    if n < 1000 {
        decimal(n)
    } else {
        grouped(n / 1000).push(',') + padded_left(decimal(n % 1000), 3, '0')
    }
}

/// "12,481"
pub fn count(n: u64) -> (s: String)
    ensures
        s@ == grouped(n as nat),
    decreases n,
{
    if n < 1000 {
        return decimal_text(n);
    }
    let mut s = count(n / 1000);
    s.push(',');
    s.append(pad_left(decimal_text(n % 1000).as_str(), 3, '0').as_str());
    s
}

/// A number of at least two digits.
pub open spec fn two_digits(n: nat) -> Seq<char> {
    padded_left(decimal(n), 2, '0')
}

fn two_digit_text(n: u64) -> (s: String)
    ensures
        s@ == two_digits(n as nat),
{
    pad_left(decimal_text(n).as_str(), 2, '0')
}

/// How long something took, in the units that matter.
pub open spec fn span_text(d: Duration) -> Seq<char> {
    let s = d.secs as nat;
    if s >= 3600 {
        decimal(s / 3600) + "h "@ + two_digits(s % 3600 / 60) + "m "@ + two_digits(s % 60) + "s"@
    } else if s >= 60 {
        decimal(s / 60) + "m "@ + two_digits(s % 60) + "s"@
    } else {
        decimal(s).push('.') + decimal((d.nanos / 100_000_000) as nat) + "s"@
    }
}

/// "1m 04s"
pub fn duration(d: Duration) -> (s: String)
    ensures
        s@ == span_text(d),
{
    let secs: u64 = d.as_secs();
    let mut s;
    if secs >= 3600 {
        s = decimal_text(secs / 3600);
        s.append("h ");
        s.append(two_digit_text((secs % 3600) / 60).as_str());
        s.append("m ");
        s.append(two_digit_text(secs % 60).as_str());
    } else if secs >= 60 {
        s = decimal_text(secs / 60);
        s.append("m ");
        s.append(two_digit_text(secs % 60).as_str());
    } else {
        s = decimal_text(secs);
        s.push('.');
        s.append(decimal_text((d.subsec_millis() / 100) as u64).as_str());
        assert(d.nanos as int / 1_000_000 / 100 == d.nanos as int / 100_000_000);
    }
    s.append("s");
    s
}

/// "12.4 MiB/s", or a dash before anything was read. `rate` is the bytes per
/// second that `total_bytes` in `elapsed` come to.
pub fn throughput(total_bytes: u64, elapsed: Duration, rate: u64) -> (s: String)
    ensures
        s@ == if elapsed.total_nanos() == 0 || total_bytes == 0 {
            "—"@
        } else {
            size_text(rate) + "/s"@
        },
{
    if elapsed.is_zero() || total_bytes == 0 {
        return text_from("—");
    }
    let mut s = bytes(rate);
    s.append("/s");
    s
}

/// How many leap years there are up to the end of year `y`, counted from a
/// fixed point of the proleptic Gregorian calendar.
pub open spec fn leap_years_through(y: int) -> int {
    y / 4 - y / 100 + y / 400
}

/// Whether the year has a 29th of February.
pub open spec fn is_leap(y: int) -> bool {
    y % 4 == 0 && (y % 100 != 0 || y % 400 == 0)
}

/// Days from the first of January to the first of the month.
pub open spec fn days_before_month(y: int, m: int) -> int {
    let leap: int = if is_leap(y) {
        1
    } else {
        0
    };
    if m <= 1 {
        0
    } else if m == 2 {
        31
    } else {
        leap + (if m == 3 {
            59
        } else if m == 4 {
            90
        } else if m == 5 {
            120
        } else if m == 6 {
            151
        } else if m == 7 {
            181
        } else if m == 8 {
            212
        } else if m == 9 {
            243
        } else if m == 10 {
            273
        } else if m == 11 {
            304
        } else if m == 12 {
            334
        } else {
            365int
        })
    }
}

/// How many days the month has.
pub open spec fn days_in_month(y: int, m: int) -> int {
    days_before_month(y, m + 1) - days_before_month(y, m)
}

/// Days from the first of January 1970 to a date of the Gregorian calendar.
pub open spec fn day_number(y: int, m: int, d: int) -> int {
    365 * (y - 1970) + leap_years_through(y - 1) - leap_years_through(1969) + days_before_month(
        y,
        m,
    ) + d - 1
}

/// A date that the calendar has.
pub open spec fn is_date(y: int, m: int, d: int) -> bool {
    1 <= m <= 12 && 1 <= d <= days_in_month(y, m)
}

/// Days since the Unix epoch to a calendar date (Howard Hinnant's algorithm).
pub fn civil_from_days(days: i64) -> (date: (i64, u32, u32))
    requires
        days <= i64::MAX - 719_468,
    ensures
        is_date(date.0 as int, date.1 as int, date.2 as int),
        day_number(date.0 as int, date.1 as int, date.2 as int) == days,
{
    // Eras of 400 years that start on the first of March, so that the leap day
    // is the last day of a year.
    let z: i64 = days + 719_468;
    let (era, doe): (i64, i64) = if z >= 0 {
        (z / 146_097, z % 146_097)
    } else {
        (-((-1 - z) / 146_097) - 1, 146_096 - (-1 - z) % 146_097)
    };
    let yoe: i64 = (doe - doe / 1_460 + doe / 36_524 - doe / 146_096) / 365;
    proof {
        year_of_era_is_right(doe as int, yoe as int);
    }
    let y: i64 = yoe + era * 400;
    let doy: i64 = doe - (365 * yoe + yoe / 4 - yoe / 100);
    let mp: i64 = (5 * doy + 2) / 153;
    let d: i64 = doy - (153 * mp + 2) / 5 + 1;
    let m: i64 = if mp < 10 {
        mp + 3
    } else {
        mp - 9
    };
    let year: i64 = if m <= 2 {
        y + 1
    } else {
        y
    };
    proof {
        date_is_right(era as int, yoe as int, doy as int, mp as int);
    }
    (year, m as u32, d as u32)
}

/// The first day of a year of the era.
spec fn year_start(yoe: int) -> int {
    365 * yoe + yoe / 4 - yoe / 100
}

#[verifier::spinoff_prover]
#[verifier::rlimit(60)]
proof fn year_of_era_is_right(doe: int, yoe: int)
    requires
        0 <= doe < 146_097,
        yoe == (doe - doe / 1_460 + doe / 36_524 - doe / 146_096) / 365,
    ensures
        0 <= yoe < 400,
        year_start(yoe) <= doe,
        doe < year_start(yoe + 1) || (yoe == 399 && doe == 146_096),
{
    let b = doe / 1_460;
    let a = doe / 36_524;
    let c = doe / 146_096;
    assert(1_460 * b <= doe < 1_460 * b + 1_460);
    assert(36_524 * a <= doe < 36_524 * a + 36_524);
    assert(c == if doe == 146_096 {
        1int
    } else {
        0int
    });
    let n = doe - b + a - c;
    assert(365 * yoe <= n < 365 * yoe + 365);
    let f = yoe / 4;
    assert(4 * f <= yoe < 4 * f + 4);
    let h = yoe / 100;
    assert(100 * h <= yoe < 100 * h + 100);
    let f2 = (yoe + 1) / 4;
    assert(4 * f2 <= yoe + 1 < 4 * f2 + 4);
    let h2 = (yoe + 1) / 100;
    assert(100 * h2 <= yoe + 1 < 100 * h2 + 100);
    if a == 0 {
    } else if a == 1 {
    } else if a == 2 {
    } else if a == 3 {
    } else {
        assert(a == 4);
        assert(doe == 146_096);
    }
}

proof fn quotient_step(y: int, d: int)
    requires
        d > 1,
    ensures
        y / d - (y - 1) / d == if y % d == 0 {
            1int
        } else {
            0int
        },
{
    let q = y / d;
    let r = y % d;
    vstd::arithmetic::div_mod::lemma_fundamental_div_mod(y, d);
    vstd::arithmetic::div_mod::lemma_mod_bound(y, d);
    if r == 0 {
        assert(y - 1 == (q - 1) * d + (d - 1)) by (nonlinear_arith)
            requires
                y == d * q,
        ;
        vstd::arithmetic::div_mod::lemma_fundamental_div_mod_converse(y - 1, d, q - 1, d - 1);
    } else {
        assert(y - 1 == q * d + (r - 1)) by (nonlinear_arith)
            requires
                y == d * q + r,
        ;
        vstd::arithmetic::div_mod::lemma_fundamental_div_mod_converse(y - 1, d, q, r - 1);
    }
}

proof fn leap_years_step(y: int)
    ensures
        leap_years_through(y) - leap_years_through(y - 1) == if is_leap(y) {
            1int
        } else {
            0int
        },
{
    quotient_step(y, 4);
    quotient_step(y, 100);
    quotient_step(y, 400);
    if y % 400 == 0 {
        vstd::arithmetic::div_mod::lemma_fundamental_div_mod(y, 400);
        vstd::arithmetic::div_mod::lemma_mod_multiples_vanish(4 * (y / 400), 0, 100);
    }
    if y % 100 == 0 {
        vstd::arithmetic::div_mod::lemma_fundamental_div_mod(y, 100);
        vstd::arithmetic::div_mod::lemma_mod_multiples_vanish(25 * (y / 100), 0, 4);
    }
}

proof fn leap_years_of_era(era: int, yoe: int)
    requires
        0 <= yoe < 400,
    ensures
        leap_years_through(yoe + era * 400) == 97 * era + yoe / 4 - yoe / 100,
{
    let y = yoe + era * 400;
    vstd::arithmetic::div_mod::lemma_fundamental_div_mod_converse(
        y,
        4,
        100 * era + yoe / 4,
        yoe % 4,
    );
    vstd::arithmetic::div_mod::lemma_fundamental_div_mod_converse(
        y,
        100,
        4 * era + yoe / 100,
        yoe % 100,
    );
    vstd::arithmetic::div_mod::lemma_fundamental_div_mod_converse(y, 400, era, yoe);
}

proof fn leap_year_of_era(era: int, yoe: int)
    ensures
        is_leap(yoe + era * 400) == is_leap(yoe),
{
    vstd::arithmetic::div_mod::lemma_mod_multiples_vanish(100 * era, yoe, 4);
    vstd::arithmetic::div_mod::lemma_mod_multiples_vanish(4 * era, yoe, 100);
    vstd::arithmetic::div_mod::lemma_mod_multiples_vanish(era, yoe, 400);
}

/// Days from the first of March to the first of the month `mp` months later.
spec fn march_days(mp: int) -> int {
    (153 * mp + 2) / 5
}

proof fn month_is_right(doy: int, mp: int)
    requires
        0 <= doy <= 365,
        mp == (5 * doy + 2) / 153,
    ensures
        0 <= mp <= 11,
        march_days(mp) <= doy,
        mp < 11 ==> doy < march_days(mp + 1),
{
}

proof fn date_is_right(era: int, yoe: int, doy: int, mp: int)
    requires
        0 <= yoe < 400,
        0 <= doy,
        doy + year_start(yoe) < year_start(yoe + 1) || (yoe == 399 && doy == 365),
        mp == (5 * doy + 2) / 153,
    ensures
        ({
            let d = doy - (153 * mp + 2) / 5 + 1;
            let m = if mp < 10 {
                mp + 3
            } else {
                mp - 9
            };
            let y = yoe + era * 400;
            let year = if m <= 2 {
                y + 1
            } else {
                y
            };
            &&& is_date(year, m, d)
            &&& day_number(year, m, d) == era * 146_097 + year_start(yoe) + doy - 719_468
        }),
{
    let y = yoe + era * 400;
    assert((yoe + 1) / 4 - yoe / 4 <= 1 && (yoe + 1) / 100 - yoe / 100 >= 0);
    month_is_right(doy, mp);
    leap_years_of_era(era, yoe);
    leap_years_step(y);
    if doy == 365 {
        assert(is_leap(yoe + 1)) by {
            if yoe < 399 {
                assert((yoe + 1) / 4 - yoe / 4 == 1);
                assert((yoe + 1) / 100 - yoe / 100 == 0);
            }
        }
        leap_year_of_era(era, yoe + 1);
        assert(is_leap(y + 1));
    }
    if mp == 0 {
    } else if mp == 1 {
    } else if mp == 2 {
    } else if mp == 3 {
    } else if mp == 4 {
    } else if mp == 5 {
    } else if mp == 6 {
    } else if mp == 7 {
    } else if mp == 8 {
    } else if mp == 9 {
    } else if mp == 10 {
    } else {
    }
}


/// Two different dates never have the same day number, so every day has one
/// date.
pub proof fn dates_are_unique(y1: int, m1: int, d1: int, y2: int, m2: int, d2: int)
    requires
        is_date(y1, m1, d1),
        is_date(y2, m2, d2),
        day_number(y1, m1, d1) == day_number(y2, m2, d2),
    ensures
        y1 == y2,
        m1 == m2,
        d1 == d2,
{
    if y1 < y2 {
        earlier_year_comes_first(y1, m1, d1, y2, m2, d2);
    } else if y2 < y1 {
        earlier_year_comes_first(y2, m2, d2, y1, m1, d1);
    } else if m1 < m2 {
        earlier_month_comes_first(y1, m1, m2);
    } else if m2 < m1 {
        earlier_month_comes_first(y1, m2, m1);
    }
}

proof fn earlier_month_comes_first(y: int, m1: int, m2: int)
    requires
        1 <= m1 < m2 <= 13,
    ensures
        days_before_month(y, m1 + 1) <= days_before_month(y, m2),
    decreases m2 - m1,
{
    if m1 + 1 < m2 {
        earlier_month_comes_first(y, m1, m2 - 1);
    }
}

proof fn leap_years_grow(y1: int, y2: int)
    requires
        y1 <= y2,
    ensures
        leap_years_through(y1) <= leap_years_through(y2),
    decreases y2 - y1,
{
    if y1 < y2 {
        leap_years_grow(y1, y2 - 1);
        leap_years_step(y2);
    }
}

proof fn earlier_year_comes_first(y1: int, m1: int, d1: int, y2: int, m2: int, d2: int)
    requires
        is_date(y1, m1, d1),
        is_date(y2, m2, d2),
        y1 < y2,
    ensures
        day_number(y1, m1, d1) < day_number(y2, m2, d2),
{
    leap_years_step(y1);
    leap_years_grow(y1, y2 - 1);
    if m1 < 12 {
        earlier_month_comes_first(y1, m1, 13);
    }
    assert(days_before_month(y1, 13) == 365 + if is_leap(y1) {
        1int
    } else {
        0int
    });
    assert(days_before_month(y2, m2) >= 0);
}

/// The date of a day.
pub open spec fn date_of(days: int) -> (int, int, int) {
    choose|date: (int, int, int)|
        is_date(date.0, date.1, date.2) && #[trigger] day_number(date.0, date.1, date.2) == days
}

/// A point in time to the minute, in UTC, or a dash where it is not known or
/// lies before the epoch.
pub open spec fn when_text(t: Option<FileTime>) -> Seq<char> {
    match t {
        None => "—"@,
        Some(t) => if t.at() < 0 {
            "—"@
        } else {
            let secs = t.at() / 1_000_000_000;
            let date = date_of(secs / 86_400);
            let time = secs % 86_400;
            padded_left(decimal(date.0 as nat), 4, '0').push('-') + two_digits(
                date.1 as nat,
            ).push('-') + two_digits(date.2 as nat).push(' ') + two_digits(
                (time / 3600) as nat,
            ).push(':') + two_digits((time % 3600 / 60) as nat)
        },
    }
}

/// "2019-06-14 11:32" in UTC, or "—" when the timestamp is unavailable.
pub fn timestamp(t: Option<FileTime>) -> (s: String)
    ensures
        s@ == when_text(t),
{
    let t = match t {
        None => {
            return text_from("—");
        },
        Some(t) => t,
    };
    let nanos: i128 = t.unix_nanos();
    if nanos < 0 {
        return text_from("—");
    }
    let secs: i128 = nanos / 1_000_000_000;
    let days: i64 = (secs / 86_400) as i64;
    let time: i64 = (secs % 86_400) as i64;
    let (y, m, d): (i64, u32, u32) = civil_from_days(days);
    proof {
        let date = date_of(days as int);
        assert(day_number((y as int, m as int, d as int).0, m as int, d as int) == days);
        dates_are_unique(y as int, m as int, d as int, date.0, date.1, date.2);
        if y < 1970 {
            assert(is_date(1970, 1, 1));
            earlier_year_comes_first(y as int, m as int, d as int, 1970, 1, 1);
        }
    }
    let mut s = pad_left(decimal_text(y as u64).as_str(), 4, '0');
    s.push('-');
    s.append(two_digit_text(m as u64).as_str());
    s.push('-');
    s.append(two_digit_text(d as u64).as_str());
    s.push(' ');
    s.append(two_digit_text((time / 3600) as u64).as_str());
    s.push(':');
    s.append(two_digit_text((time % 3600 / 60) as u64).as_str());
    assert(s@ =~= when_text(Some(t)));
    s
}

/// A path as shown below a root: without the root where it lies in it.
pub open spec fn shown_below(path: Seq<u8>, root: Option<Seq<u8>>) -> Seq<char> {
    if root is Some && below(path, root->0) is Some {
        let rest = below(path, root->0)->0;
        if displayed(rest).len() == 0 {
            "."@
        } else {
            displayed(rest)
        }
    } else {
        displayed(path)
    }
}

/// The bytes of a path that may be there.
pub open spec fn path_in(path: Option<&FilePath>) -> Option<Seq<u8>> {
    match path {
        Some(p) => Some(p@),
        None => None,
    }
}

/// Render `path` relative to `root` when it lies inside it.
///
/// The scan root is already shown in the header, so repeating it on every row
/// wastes the columns that carry the actual difference between two copies.
pub fn relative_to(path: &FilePath, root: Option<&FilePath>) -> (s: String)
    ensures
        s@ == shown_below(path@, path_in(root)),
{
    if let Some(root) = root {
        if let Some(rest) = path.strip_prefix(root) {
            let rest = rest.display();
            if rest.as_str().is_empty() {
                return text_from(".");
            }
            return rest;
        }
    }
    path.display()
}

/// A path as shown below a root leads back to the path from there. It is `.` for the root
/// itself and nothing else; a path that does not lie in the root, and any path without a
/// root, is shown as it is.
pub proof fn shown_paths_lead_back(path: Seq<u8>, root: Seq<u8>)
    requires
        is_absolute(path),
        valid_utf8(path),
    ensures
        components(joined(root, encode_utf8(shown_below(path, Some(root))))) == components(path),
        shown_below(path, Some(root)) == "."@ <==> components(path) == components(root),
        !lies_in(path, root) ==> encode_utf8(shown_below(path, Some(root))) == path,
        encode_utf8(shown_below(path, None)) == path,
{
    let shown = shown_below(path, Some(root));
    vstd::utf8::decode_utf8_encode_utf8(path);
    dot_is_encoded();
    if lies_in(path, root) {
        let rest = below(path, root)->0;
        rejoining_gives_the_path_back(path, root);
        rest_is_utf8(path, root);
        vstd::utf8::decode_utf8_encode_utf8(rest);
        if rest.len() > 0 {
            assert(displayed(rest).len() > 0);
            assert(encode_utf8(shown) == rest);
        }
    } else {
        assert(path[0] == SLASH && seq![DOT][0] == DOT);
        if components(path) == components(root) {
            let c = components(path);
            assert(c.take(c.len() as int) =~= c);
        }
    }
}

proof fn dot_is_encoded()
    ensures
        encode_utf8("."@) == seq![DOT],
{
    reveal_strlit(".");
    reveal_with_fuel(encode_utf8, 2);
    let text = "."@;
    assert(text.len() == 1 && text[0] == '.');
    assert('.' as u32 == 46);
    assert((46u32 & 0x7F) as u8 == 46u8) by (bit_vector);
    assert(text.drop_first() =~= Seq::empty());
    assert(encode_utf8(text) =~= seq![DOT]);
}

/// The end of a text that fits `width` columns, behind an ellipsis if cut.
pub open spec fn tail_of(text: Seq<char>, width: int) -> Seq<char> {
    if text.len() <= width {
        text
    } else if width <= 0 {
        Seq::empty()
    } else {
        seq!['…'] + text.skip(text.len() - (width - 1))
    }
}

/// The start of a text that fits `width` columns, before an ellipsis if cut.
pub open spec fn head_of(text: Seq<char>, width: int) -> Seq<char> {
    if text.len() <= width {
        text
    } else if width <= 0 {
        Seq::empty()
    } else {
        text.take(width - 1).push('…')
    }
}

/// Shorten a path to fit `width` columns, keeping the tail (the file name and
/// its immediate parents carry the information the user needs).
pub fn truncate_path(path: &str, width: usize) -> (s: String)
    ensures
        s@ == tail_of(path@, width as int),
{
    let chars = chars_of(path);
    if chars.len() <= width {
        return text_from(path);
    }
    let mut s = String::new();
    if width == 0 {
        return s;
    }
    s.push('…');
    let keep: usize = width - 1;
    s.append(text_of(&chars, chars.len() - keep, chars.len()).as_str());
    assert(s@ =~= tail_of(path@, width as int));
    s
}

/// Shorten any text to `width` columns, keeping the head.
pub fn truncate(text: &str, width: usize) -> (s: String)
    ensures
        s@ == head_of(text@, width as int),
{
    let chars = chars_of(text);
    if chars.len() <= width {
        return text_from(text);
    }
    if width == 0 {
        return String::new();
    }
    let mut s = text_of(&chars, 0, width - 1);
    s.push('…');
    assert(s@ =~= head_of(text@, width as int));
    s
}

/// Shortened text never exceeds the width.
pub proof fn truncation_fits(text: Seq<char>, width: int)
    requires
        width >= 0,
    ensures
        tail_of(text, width).len() <= width,
        head_of(text, width).len() <= width,
{
}

/// Text that fits is left alone, and what is cut fills the width.
pub proof fn truncation_wastes_nothing(text: Seq<char>, width: int)
    requires
        width >= 0,
    ensures
        text.len() <= width ==> tail_of(text, width) == text && head_of(text, width) == text,
        text.len() > width ==> tail_of(text, width).len() == width && head_of(text, width).len()
            == width,
{
}

} // verus!
