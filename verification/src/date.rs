//! Calendar dates of Unix timestamps, and their HTTP and log renderings.

use vstd::prelude::*;
use crate::text::{ascii_chars, all_ascii, ascii_string};
use crate::fmt::{decimal, zero_padded, push_decimal, push_padded, lemma_decimal_ascii};

verus! {

/// Whether `y` is a leap year of the proleptic Gregorian calendar.
pub open spec fn is_leap(y: int) -> bool {
    y % 4 == 0 && (y % 100 != 0 || y % 400 == 0)
}

/// The number of days of month `m` (1..=12) of year `y`.
pub open spec fn days_in_month(y: int, m: int) -> int {
    if m == 2 {
        if is_leap(y) {
            29
        } else {
            28
        }
    } else if m == 4 || m == 6 || m == 9 || m == 11 {
        30
    } else {
        31
    }
}

/// Whether `y-m-d` is a day of the calendar.
pub open spec fn valid_date(y: int, m: int, d: int) -> bool {
    1 <= m <= 12 && 1 <= d <= days_in_month(y, m)
}

/// The number of days from 1970-01-01 to `y-m-d`: the days of all earlier
/// (March-based) years, counted as 365 plus one per leap day, plus the days
/// of the earlier months of the year, plus `d - 1`.
pub open spec fn days_from_civil(y: int, m: int, d: int) -> int {
    let yy = if m <= 2 { y - 1 } else { y };
    let mp = if m > 2 { m - 3 } else { m + 9 };
    365 * yy + yy / 4 - yy / 100 + yy / 400 + (153 * mp + 2) / 5 + d - 1 - 719468
}

/// A broken-down UTC time.
pub struct CivilTime {
    pub year: int,
    pub month: int,
    pub day: int,
    pub hour: int,
    pub minute: int,
    pub second: int,
    /// 0 is Sunday.
    pub weekday: int,
}

/// Whether `t` is the UTC time `secs` seconds after the Unix epoch.
pub open spec fn describes(t: CivilTime, secs: int) -> bool {
    let days = secs / 86400;
    let sod = secs % 86400;
    &&& valid_date(t.year, t.month, t.day)
    &&& days_from_civil(t.year, t.month, t.day) == days
    &&& t.hour == sod / 3600
    &&& t.minute == (sod % 3600) / 60
    &&& t.second == sod % 60
    &&& t.weekday == (days + 4) % 7
}

/// A calendar date and time of day, in UTC.
pub struct Date {
    y: i64,
    mo: i64,
    d: i64,
    h: u64,
    m: u64,
    s: u64,
    dow: i64,
}

impl View for Date {
    type V = CivilTime;

    closed spec fn view(&self) -> CivilTime {
        CivilTime {
            year: self.y as int,
            month: self.mo as int,
            day: self.d as int,
            hour: self.h as int,
            minute: self.m as int,
            second: self.s as int,
            weekday: self.dow as int,
        }
    }
}

/// The bounds that every `Date` keeps.
pub open spec fn date_bounds(t: CivilTime) -> bool {
    &&& 1970 <= t.year <= 600_000_000_000
    &&& valid_date(t.year, t.month, t.day)
    &&& 0 <= t.hour < 24
    &&& 0 <= t.minute < 60
    &&& 0 <= t.second < 60
    &&& 0 <= t.weekday < 7
}

/// The English abbreviation of a weekday (0 is Sunday).
pub open spec fn day_name(w: int) -> Seq<u8> {
    if w == 0 {
        seq![83u8, 117u8, 110u8]
    } else if w == 1 {
        seq![77u8, 111u8, 110u8]
    } else if w == 2 {
        seq![84u8, 117u8, 101u8]
    } else if w == 3 {
        seq![87u8, 101u8, 100u8]
    } else if w == 4 {
        seq![84u8, 104u8, 117u8]
    } else if w == 5 {
        seq![70u8, 114u8, 105u8]
    } else {
        seq![83u8, 97u8, 116u8]
    }
}

/// The English abbreviation of a month (1 is January).
pub open spec fn month_name(m: int) -> Seq<u8> {
    if m == 1 {
        seq![74u8, 97u8, 110u8]
    } else if m == 2 {
        seq![70u8, 101u8, 98u8]
    } else if m == 3 {
        seq![77u8, 97u8, 114u8]
    } else if m == 4 {
        seq![65u8, 112u8, 114u8]
    } else if m == 5 {
        seq![77u8, 97u8, 121u8]
    } else if m == 6 {
        seq![74u8, 117u8, 110u8]
    } else if m == 7 {
        seq![74u8, 117u8, 108u8]
    } else if m == 8 {
        seq![65u8, 117u8, 103u8]
    } else if m == 9 {
        seq![83u8, 101u8, 112u8]
    } else if m == 10 {
        seq![79u8, 99u8, 116u8]
    } else if m == 11 {
        seq![78u8, 111u8, 118u8]
    } else {
        seq![68u8, 101u8, 99u8]
    }
}

/// The months 1 to 12 are written Jan to Dec, in that order, and no
/// two months are written alike.
pub proof fn lemma_month_names()
    ensures
        ascii_chars(month_name(1)) == seq!['J', 'a', 'n'],
        ascii_chars(month_name(2)) == seq!['F', 'e', 'b'],
        ascii_chars(month_name(3)) == seq!['M', 'a', 'r'],
        ascii_chars(month_name(4)) == seq!['A', 'p', 'r'],
        ascii_chars(month_name(5)) == seq!['M', 'a', 'y'],
        ascii_chars(month_name(6)) == seq!['J', 'u', 'n'],
        ascii_chars(month_name(7)) == seq!['J', 'u', 'l'],
        ascii_chars(month_name(8)) == seq!['A', 'u', 'g'],
        ascii_chars(month_name(9)) == seq!['S', 'e', 'p'],
        ascii_chars(month_name(10)) == seq!['O', 'c', 't'],
        ascii_chars(month_name(11)) == seq!['N', 'o', 'v'],
        ascii_chars(month_name(12)) == seq!['D', 'e', 'c'],
        forall|m1: int, m2: int| 1 <= m1 <= 12 && 1 <= m2 <= 12 && m1 != m2 ==> month_name(m1) != month_name(m2),
{
    assert(ascii_chars(month_name(1)) =~= seq!['J', 'a', 'n']);
    assert(ascii_chars(month_name(2)) =~= seq!['F', 'e', 'b']);
    assert(ascii_chars(month_name(3)) =~= seq!['M', 'a', 'r']);
    assert(ascii_chars(month_name(4)) =~= seq!['A', 'p', 'r']);
    assert(ascii_chars(month_name(5)) =~= seq!['M', 'a', 'y']);
    assert(ascii_chars(month_name(6)) =~= seq!['J', 'u', 'n']);
    assert(ascii_chars(month_name(7)) =~= seq!['J', 'u', 'l']);
    assert(ascii_chars(month_name(8)) =~= seq!['A', 'u', 'g']);
    assert(ascii_chars(month_name(9)) =~= seq!['S', 'e', 'p']);
    assert(ascii_chars(month_name(10)) =~= seq!['O', 'c', 't']);
    assert(ascii_chars(month_name(11)) =~= seq!['N', 'o', 'v']);
    assert(ascii_chars(month_name(12)) =~= seq!['D', 'e', 'c']);
    assert forall|m1: int, m2: int| 1 <= m1 <= 12 && 1 <= m2 <= 12 && m1 != m2 implies month_name(m1) != month_name(m2) by {
        if month_name(m1) == month_name(m2) {
            assert(month_name(m1)[0] == month_name(m2)[0]);
            assert(month_name(m1)[1] == month_name(m2)[1]);
            assert(month_name(m1)[2] == month_name(m2)[2]);
        }
    }
}

/// The weekdays 0 to 6 are written Sun to Sat, in that order, and no
/// two are written alike.
pub proof fn lemma_day_names()
    ensures
        ascii_chars(day_name(0)) == seq!['S', 'u', 'n'],
        ascii_chars(day_name(1)) == seq!['M', 'o', 'n'],
        ascii_chars(day_name(2)) == seq!['T', 'u', 'e'],
        ascii_chars(day_name(3)) == seq!['W', 'e', 'd'],
        ascii_chars(day_name(4)) == seq!['T', 'h', 'u'],
        ascii_chars(day_name(5)) == seq!['F', 'r', 'i'],
        ascii_chars(day_name(6)) == seq!['S', 'a', 't'],
        forall|w1: int, w2: int| 0 <= w1 < 7 && 0 <= w2 < 7 && w1 != w2 ==> day_name(w1) != day_name(w2),
{
    assert(ascii_chars(day_name(0)) =~= seq!['S', 'u', 'n']);
    assert(ascii_chars(day_name(1)) =~= seq!['M', 'o', 'n']);
    assert(ascii_chars(day_name(2)) =~= seq!['T', 'u', 'e']);
    assert(ascii_chars(day_name(3)) =~= seq!['W', 'e', 'd']);
    assert(ascii_chars(day_name(4)) =~= seq!['T', 'h', 'u']);
    assert(ascii_chars(day_name(5)) =~= seq!['F', 'r', 'i']);
    assert(ascii_chars(day_name(6)) =~= seq!['S', 'a', 't']);
    assert forall|w1: int, w2: int| 0 <= w1 < 7 && 0 <= w2 < 7 && w1 != w2 implies day_name(w1) != day_name(w2) by {
        if day_name(w1) == day_name(w2) {
            assert(day_name(w1)[0] == day_name(w2)[0]);
            assert(day_name(w1)[1] == day_name(w2)[1]);
            assert(day_name(w1)[2] == day_name(w2)[2]);
        }
    }
}

/// Two-digit zero-padded decimal.
pub open spec fn two_digits(n: int) -> Seq<u8> {
    zero_padded(decimal(n as nat), 2)
}

/// The IMF-fixdate of RFC 7231, e.g. `Sun, 06 Nov 1994 08:49:37 GMT`.
pub open spec fn http_text(t: CivilTime) -> Seq<u8> {
    day_name(t.weekday) + seq![44u8, 32u8] + two_digits(t.day) + seq![32u8] + month_name(t.month) + seq![32u8]
        + decimal(t.year as nat) + seq![32u8] + two_digits(t.hour) + seq![58u8] + two_digits(t.minute) + seq![58u8]
        + two_digits(t.second) + seq![32u8, 71u8, 77u8, 84u8]
}

/// The Common Log Format timestamp, e.g. `[10/Oct/2000:13:55:36 +0000]`.
pub open spec fn clf_text(t: CivilTime) -> Seq<u8> {
    seq![91u8] + two_digits(t.day) + seq![47u8] + month_name(t.month) + seq![47u8] + zero_padded(decimal(t.year as nat), 4)
        + seq![58u8] + two_digits(t.hour) + seq![58u8] + two_digits(t.minute) + seq![58u8] + two_digits(t.second)
        + seq![32u8, 43u8, 48u8, 48u8, 48u8, 48u8, 93u8]
}

/// The HTTP-date of a date is ASCII.
pub proof fn lemma_http_text_ascii(t: CivilTime)
    ensures
        all_ascii(http_text(t)),
{
    lemma_padded_ascii(t.day as nat, 2);
    lemma_padded_ascii(t.hour as nat, 2);
    lemma_padded_ascii(t.minute as nat, 2);
    lemma_padded_ascii(t.second as nat, 2);
    lemma_decimal_ascii(t.year as nat);
}

/// The Common Log Format timestamp of a date is ASCII.
pub proof fn lemma_clf_text_ascii(t: CivilTime)
    ensures
        all_ascii(clf_text(t)),
{
    lemma_padded_ascii(t.day as nat, 2);
    lemma_padded_ascii(t.year as nat, 4);
    lemma_padded_ascii(t.hour as nat, 2);
    lemma_padded_ascii(t.minute as nat, 2);
    lemma_padded_ascii(t.second as nat, 2);
}

proof fn lemma_padded_ascii(n: nat, w: nat)
    ensures
        all_ascii(zero_padded(decimal(n), w)),
{
    lemma_decimal_ascii(n);
    let s = zero_padded(decimal(n), w);
    if decimal(n).len() < w {
        assert forall|i: int| 0 <= i < s.len() implies #[trigger] s[i] < 0x80 by {
            if i >= w - decimal(n).len() {
                assert(s[i] == decimal(n)[i - (w - decimal(n).len())]);
            }
        }
    }
}

fn push3(out: &mut Vec<u8>, a: u8, b: u8, c: u8)
    ensures
        final(out)@ == old(out)@ + seq![a, b, c],
{
    out.push(a);
    out.push(b);
    out.push(c);
    assert(final(out)@ =~= old(out)@ + seq![a, b, c]);
}

fn push_day_name(out: &mut Vec<u8>, w: i64)
    ensures
        final(out)@ == old(out)@ + day_name(w as int),
{
    if w == 0 {
        push3(out, 83u8, 117u8, 110u8);
    } else if w == 1 {
        push3(out, 77u8, 111u8, 110u8);
    } else if w == 2 {
        push3(out, 84u8, 117u8, 101u8);
    } else if w == 3 {
        push3(out, 87u8, 101u8, 100u8);
    } else if w == 4 {
        push3(out, 84u8, 104u8, 117u8);
    } else if w == 5 {
        push3(out, 70u8, 114u8, 105u8);
    } else {
        push3(out, 83u8, 97u8, 116u8);
    }
}

fn push_month_name(out: &mut Vec<u8>, m: i64)
    ensures
        final(out)@ == old(out)@ + month_name(m as int),
{
    if m == 1 {
        push3(out, 74u8, 97u8, 110u8);
    } else if m == 2 {
        push3(out, 70u8, 101u8, 98u8);
    } else if m == 3 {
        push3(out, 77u8, 97u8, 114u8);
    } else if m == 4 {
        push3(out, 65u8, 112u8, 114u8);
    } else if m == 5 {
        push3(out, 77u8, 97u8, 121u8);
    } else if m == 6 {
        push3(out, 74u8, 117u8, 110u8);
    } else if m == 7 {
        push3(out, 74u8, 117u8, 108u8);
    } else if m == 8 {
        push3(out, 65u8, 117u8, 103u8);
    } else if m == 9 {
        push3(out, 83u8, 101u8, 112u8);
    } else if m == 10 {
        push3(out, 79u8, 99u8, 116u8);
    } else if m == 11 {
        push3(out, 78u8, 111u8, 118u8);
    } else {
        push3(out, 68u8, 101u8, 99u8);
    }
}

/// Reads the system clock: the whole seconds since the Unix epoch, or 0 when
/// the clock is set before the epoch. Nothing is promised of the value.
#[verifier::external_body]
fn unix_time_secs() -> u64 {
    std::time::SystemTime::now().duration_since(std::time::UNIX_EPOCH).map(|d| d.as_secs()).unwrap_or(0)
}

/// The day after `y-m-d`.
pub open spec fn next_day(y: int, m: int, d: int) -> (int, int, int) {
    if d < days_in_month(y, m) {
        (y, m, d + 1)
    } else if m < 12 {
        (y, m + 1, 1)
    } else {
        (y + 1, 1, 1)
    }
}

spec fn year_base(yy: int) -> int {
    365 * yy + yy / 4 - yy / 100 + yy / 400
}

spec fn month_offset(m: int) -> int {
    let mp = if m > 2 { m - 3 } else { m + 9 };
    (153 * mp + 2) / 5
}

proof fn lemma_year_step(yy: int)
    ensures
        year_base(yy + 1) == year_base(yy) + 365 + if is_leap(yy + 1) { 1int } else { 0int },
{
    assert((yy + 1) / 4 == yy / 4 + if (yy + 1) % 4 == 0 { 1int } else { 0int });
    assert((yy + 1) / 100 == yy / 100 + if (yy + 1) % 100 == 0 { 1int } else { 0int });
    assert((yy + 1) / 400 == yy / 400 + if (yy + 1) % 400 == 0 { 1int } else { 0int });
    if (yy + 1) % 400 == 0 {
        assert((yy + 1) % 100 == 0 && (yy + 1) % 4 == 0);
    } else if (yy + 1) % 100 == 0 {
        assert((yy + 1) % 4 == 0);
    }
}

proof fn lemma_year_monotone(a: int, b: int)
    requires
        a < b,
    ensures
        year_base(a) + 365 + (if is_leap(a + 1) { 1int } else { 0int }) <= year_base(b),
    decreases b - a,
{
    lemma_year_step(a);
    if b > a + 1 {
        lemma_year_monotone(a + 1, b);
        lemma_year_step(a + 1);
    }
}

proof fn lemma_day_in_year(y: int, m: int, d: int)
    requires
        valid_date(y, m, d),
    ensures
        0 <= month_offset(m) + d - 1 < 365 + (if is_leap((if m <= 2 { y - 1 } else { y }) + 1) { 1int } else { 0int }),
{
}

/// Distinct days of the calendar are distinct day counts: a day count names
/// one date.
pub proof fn lemma_days_from_civil_injective(y1: int, m1: int, d1: int, y2: int, m2: int, d2: int)
    requires
        valid_date(y1, m1, d1),
        valid_date(y2, m2, d2),
        days_from_civil(y1, m1, d1) == days_from_civil(y2, m2, d2),
    ensures
        y1 == y2 && m1 == m2 && d1 == d2,
{
    let yy1 = if m1 <= 2 { y1 - 1 } else { y1 };
    let yy2 = if m2 <= 2 { y2 - 1 } else { y2 };
    lemma_day_in_year(y1, m1, d1);
    lemma_day_in_year(y2, m2, d2);
    assert(days_from_civil(y1, m1, d1) == year_base(yy1) + month_offset(m1) + d1 - 1 - 719468);
    assert(days_from_civil(y2, m2, d2) == year_base(yy2) + month_offset(m2) + d2 - 1 - 719468);
    if yy1 < yy2 {
        lemma_year_monotone(yy1, yy2);
    } else if yy2 < yy1 {
        lemma_year_monotone(yy2, yy1);
    }
    assert(yy1 == yy2);
    assert(month_offset(m1) + d1 == month_offset(m2) + d2);
}

/// Day 0 is 1970-01-01.
pub proof fn lemma_epoch()
    ensures
        days_from_civil(1970, 1, 1) == 0,
        valid_date(1970, 1, 1),
{
}

/// The day after a date is counted one more: `days_from_civil` counts the
/// days of the calendar one by one.
pub proof fn lemma_next_day(y: int, m: int, d: int)
    requires
        valid_date(y, m, d),
    ensures
        valid_date(next_day(y, m, d).0, next_day(y, m, d).1, next_day(y, m, d).2),
        days_from_civil(next_day(y, m, d).0, next_day(y, m, d).1, next_day(y, m, d).2) == days_from_civil(y, m, d) + 1,
{
    assert(days_from_civil(y, m, d) == year_base(if m <= 2 { y - 1 } else { y }) + month_offset(m) + d - 1 - 719468);
    if d == days_in_month(y, m) && m == 2 {
        lemma_year_step(y - 1);
    }
}

/// A Unix time has one broken-down UTC time.
pub proof fn lemma_describes_unique(t1: CivilTime, t2: CivilTime, secs: int)
    requires
        describes(t1, secs),
        describes(t2, secs),
    ensures
        t1 == t2,
{
    lemma_days_from_civil_injective(t1.year, t1.month, t1.day, t2.year, t2.month, t2.day);
}

spec fn yoe_of(doe: int) -> int {
    (doe - doe / 1460 + doe / 36524 - doe / 146096) / 365
}

spec fn doy_of(doe: int) -> int {
    let yoe = yoe_of(doe);
    doe - (365 * yoe + yoe / 4 - yoe / 100)
}

proof fn lemma_day_of_era(doe: int)
    requires
        0 <= doe <= 146096,
    ensures
        0 <= yoe_of(doe) <= 399,
        0 <= doy_of(doe) <= 365,
        doy_of(doe) == 365 ==> (yoe_of(doe) + 1) % 4 == 0 && ((yoe_of(doe) + 1) % 100 != 0 || yoe_of(doe) == 399),
{
}

proof fn lemma_month_of_year(doy: int)
    requires
        0 <= doy <= 365,
    ensures
        ({
            let mp = (5 * doy + 2) / 153;
            let d = doy - (153 * mp + 2) / 5 + 1;
            let mo = if mp < 10 { mp + 3 } else { mp - 9 };
            &&& 0 <= mp <= 11
            &&& 1 <= d
            &&& (mo == 4 || mo == 6 || mo == 9 || mo == 11) ==> d <= 30
            &&& mo != 2 ==> d <= 31
            &&& mo == 2 ==> d <= doy - 336 && doy - 336 <= 29
        }),
{
}

proof fn lemma_era_split(yy: int, era: int, yoe: int)
    requires
        yy == era * 400 + yoe,
        0 <= yoe < 400,
    ensures
        365 * yy + yy / 4 - yy / 100 + yy / 400 == era * 146097 + 365 * yoe + yoe / 4 - yoe / 100,
{
    assert(yy / 4 == era * 100 + yoe / 4) by (nonlinear_arith)
        requires
            yy == era * 400 + yoe,
            0 <= yoe < 400,
    ;
    assert(yy / 100 == era * 4 + yoe / 100) by (nonlinear_arith)
        requires
            yy == era * 400 + yoe,
            0 <= yoe < 400,
    ;
    assert(yy / 400 == era) by (nonlinear_arith)
        requires
            yy == era * 400 + yoe,
            0 <= yoe < 400,
    ;
}

impl Date {
    #[verifier::type_invariant]
    spec fn inv(self) -> bool {
        date_bounds(self@)
    }

    /// The UTC date and time `secs` seconds after the Unix epoch.
    pub fn new(secs: u64) -> (date: Self)
        ensures
            describes(date@, secs as int),
            date_bounds(date@),
    {
        let days = (secs / 86400) as i64;
        let sod = secs % 86400;
        let h = sod / 3600;
        let m = (sod % 3600) / 60;
        let s = sod % 60;
        let dow = (days + 4) % 7;
        let z = days + 719468;
        let era = (if z >= 0 { z } else { z - 146096 }) / 146097;
        let doe = z - era * 146097;
        proof {
            lemma_day_of_era(doe as int);
        }
        let yoe = (doe - doe / 1460 + doe / 36524 - doe / 146096) / 365;
        let y = yoe + era * 400;
        let doy = doe - (365 * yoe + yoe / 4 - yoe / 100);
        proof {
            lemma_month_of_year(doy as int);
        }
        let mp = (5 * doy + 2) / 153;
        let d = doy - (153 * mp + 2) / 5 + 1;
        let mo = mp + if mp < 10 { 3 } else { -9 };
        let y = y + if mo <= 2 { 1 } else { 0 };
        proof {
            let yy = if mo <= 2 { y - 1 } else { y as int };
            lemma_era_split(yy, era as int, yoe as int);
            if mo == 2 {
                assert(is_leap(y as int) <==> (yoe + 1) % 4 == 0 && ((yoe + 1) % 100 != 0 || (yoe + 1) % 400 == 0)) by (nonlinear_arith)
                    requires
                        y == era * 400 + yoe + 1,
                        0 <= yoe <= 399,
                ;
            }
        }
        Date { y, mo, d, h, m, s, dow }
    }

    /// The current date and time, as the system clock reads it.
    pub fn now() -> (date: Self)
        ensures
            exists|secs: u64| describes(date@, secs as int),
            date_bounds(date@),
    {
        let secs = unix_time_secs();
        Self::new(secs)
    }

    /// The date as an HTTP-date, e.g. `Thu, 01 Jan 1970 00:00:00 GMT`.
    pub fn http(&self) -> (s: String)
        ensures
            s@ == ascii_chars(http_text(self@)),
    {
        proof {
            use_type_invariant(self);
        }
        let mut out: Vec<u8> = Vec::new();
        push_day_name(&mut out, self.dow);
        out.push(44u8);
        out.push(32u8);
        push_padded(&mut out, self.d as u64, 2);
        out.push(32u8);
        push_month_name(&mut out, self.mo);
        out.push(32u8);
        push_decimal(&mut out, self.y as u64);
        out.push(32u8);
        push_padded(&mut out, self.h, 2);
        out.push(58u8);
        push_padded(&mut out, self.m, 2);
        out.push(58u8);
        push_padded(&mut out, self.s, 2);
        push3(&mut out, 32u8, 71u8, 77u8);
        out.push(84u8);
        proof {
            let t = self@;
            assert(out@ =~= http_text(t));
            lemma_padded_ascii(t.day as nat, 2);
            lemma_padded_ascii(t.hour as nat, 2);
            lemma_padded_ascii(t.minute as nat, 2);
            lemma_padded_ascii(t.second as nat, 2);
            lemma_decimal_ascii(t.year as nat);
            assert(all_ascii(out@));
        }
        ascii_string(out)
    }

    /// The date as a Common Log Format timestamp, e.g. `[01/Jan/1970:00:00:00 +0000]`.
    pub fn clf(&self) -> (s: String)
        ensures
            s@ == ascii_chars(clf_text(self@)),
    {
        proof {
            use_type_invariant(self);
        }
        let mut out: Vec<u8> = Vec::new();
        out.push(91u8);
        push_padded(&mut out, self.d as u64, 2);
        out.push(47u8);
        push_month_name(&mut out, self.mo);
        out.push(47u8);
        push_padded(&mut out, self.y as u64, 4);
        out.push(58u8);
        push_padded(&mut out, self.h, 2);
        out.push(58u8);
        push_padded(&mut out, self.m, 2);
        out.push(58u8);
        push_padded(&mut out, self.s, 2);
        push3(&mut out, 32u8, 43u8, 48u8);
        push3(&mut out, 48u8, 48u8, 48u8);
        out.push(93u8);
        proof {
            let t = self@;
            assert(out@ =~= clf_text(t));
            lemma_padded_ascii(t.day as nat, 2);
            lemma_padded_ascii(t.year as nat, 4);
            lemma_padded_ascii(t.hour as nat, 2);
            lemma_padded_ascii(t.minute as nat, 2);
            lemma_padded_ascii(t.second as nat, 2);
            assert(all_ascii(out@));
        }
        ascii_string(out)
    }
}

} // verus!
