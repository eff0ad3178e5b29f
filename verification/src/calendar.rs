//! The calendar behind the timestamps: how the Unix seconds computed from a
//! RAR header's DOS date relate to the date Quick Look shows.

use vstd::prelude::*;

use crate::quicklook::{format_unix_utc_spec, is_leap_spec, month_day_from, month_len, split_years, year_len};
use crate::rar::{civil_days, dos_day, dos_hour, dos_minute, dos_month, dos_second, dos_to_unix_spec, dos_year};
use crate::text::decimal_padded;

verus! {

/// Days from 1970-01-01 to 1 January of `y`.
pub open spec fn days_before_year(y: int) -> int
    decreases y - 1970,
{
    if y <= 1970 {
        0
    } else {
        days_before_year(y - 1) + year_len(y - 1)
    }
}

/// Days of a year before month `i` (0-based).
pub open spec fn days_before_month(leap: bool, i: int) -> int
    decreases i,
{
    if i <= 0 {
        0
    } else {
        days_before_month(leap, i - 1) + month_len(leap, i - 1)
    }
}

proof fn lemma_div_step(a: int, k: int)
    requires
        k > 0,
    ensures
        a / k - (a - 1) / k == if a % k == 0 {
            1int
        } else {
            0int
        },
{
    vstd::arithmetic::div_mod::lemma_fundamental_div_mod(a, k);
    vstd::arithmetic::div_mod::lemma_fundamental_div_mod(a - 1, k);
    let q = a / k;
    let r = a % k;
    assert(a == q * k + r) by (nonlinear_arith)
        requires
            a == k * (a / k) + (a % k),
            q == a / k,
            r == a % k,
    ;
    vstd::arithmetic::div_mod::lemma_mod_bound(a, k);
    if r == 0 {
        assert(a - 1 == (q - 1) * k + (k - 1)) by (nonlinear_arith)
            requires
                a == q * k + r,
                r == 0,
        ;
        vstd::arithmetic::div_mod::lemma_fundamental_div_mod_converse(a - 1, k, q - 1, k - 1);
    } else {
        vstd::arithmetic::div_mod::lemma_fundamental_div_mod_converse(a - 1, k, q, r - 1);
    }
}

proof fn lemma_leap_divisors(a: int)
    ensures
        a % 400 == 0 ==> a % 100 == 0,
        a % 100 == 0 ==> a % 4 == 0,
{
    vstd::arithmetic::div_mod::lemma_fundamental_div_mod(a, 400);
    vstd::arithmetic::div_mod::lemma_fundamental_div_mod(a, 100);
    if a % 400 == 0 {
        let q = a / 400;
        vstd::arithmetic::div_mod::lemma_fundamental_div_mod_converse(a, 100, 4 * q, 0);
    }
    if a % 100 == 0 {
        let q = a / 100;
        vstd::arithmetic::div_mod::lemma_fundamental_div_mod_converse(a, 4, 25 * q, 0);
    }
}

/// From 1 January of `a` to 1 January of `a + 1` there are `year_len(a)`
/// days, by the calendar arithmetic.
proof fn lemma_civil_year_step(a: int)
    ensures
        365 * a + a / 4 - a / 100 + a / 400 - (365 * (a - 1) + (a - 1) / 4 - (a - 1) / 100 + (a - 1) / 400)
            == year_len(a),
{
    lemma_div_step(a, 4);
    lemma_div_step(a, 100);
    lemma_div_step(a, 400);
    lemma_leap_divisors(a);
}

proof fn lemma_civil_jan1(y: int)
    requires
        y >= 1970,
    ensures
        civil_days(y, 1, 1) == days_before_year(y),
    decreases y - 1970,
{
    if y > 1970 {
        lemma_civil_jan1(y - 1);
        lemma_civil_year_step(y - 2);
        assert(civil_days(y, 1, 1) - civil_days(y - 1, 1, 1) == year_len(y - 1)) by {
            lemma_civil_year_step(y - 1);
        }
    } else {
        assert(civil_days(1970, 1, 1) == 0);
    }
}

proof fn lemma_civil_in_year(y: int, m: int, d: int)
    requires
        1 <= m <= 12,
    ensures
        civil_days(y, m, d) == civil_days(y, 1, 1) + days_before_month(is_leap_spec(y), m - 1) + d - 1,
{
    let leap = is_leap_spec(y);
    lemma_civil_year_step(y);
    reveal_with_fuel(days_before_month, 12);
    if m > 2 {
        assert(year_len(y) == if leap { 366int } else { 365int });
    }
}

proof fn lemma_days_before_year_grows(y0: int, y: int)
    requires
        1970 <= y0 <= y,
    ensures
        days_before_year(y) >= days_before_year(y0),
        y0 < y ==> days_before_year(y) >= days_before_year(y0 + 1),
    decreases y - y0,
{
    if y0 < y {
        lemma_days_before_year_grows(y0, y - 1);
    }
}

proof fn lemma_split_years_at(y0: int, y: int, r: int)
    requires
        1970 <= y0 <= y,
        0 <= r < year_len(y),
    ensures
        split_years(days_before_year(y) - days_before_year(y0) + r, y0) == (y, r),
    decreases y - y0,
{
    if y0 < y {
        lemma_days_before_year_grows(y0, y);
        assert(days_before_year(y0 + 1) == days_before_year(y0) + year_len(y0));
        lemma_split_years_at(y0 + 1, y, r);
    }
}

proof fn lemma_days_before_month_grows(leap: bool, i: int, j: int)
    requires
        0 <= i <= j,
    ensures
        days_before_month(leap, j) >= days_before_month(leap, i),
    decreases j - i,
{
    if i < j {
        lemma_days_before_month_grows(leap, i, j - 1);
    }
}

proof fn lemma_month_day_at(leap: bool, i: int, m: int, d: int)
    requires
        0 <= i <= m - 1,
        1 <= m <= 12,
        1 <= d <= month_len(leap, m - 1),
    ensures
        month_day_from(leap, days_before_month(leap, m - 1) - days_before_month(leap, i) + d - 1, i) == (
            m,
            d,
        ),
    decreases m - 1 - i,
{
    if i < m - 1 {
        assert(days_before_month(leap, i + 1) == days_before_month(leap, i) + month_len(leap, i));
        lemma_days_before_month_grows(leap, i + 1, m - 1);
        lemma_month_day_at(leap, i + 1, m, d);
    }
}

proof fn lemma_days_before_year_bound(y: int)
    requires
        y >= 1970,
    ensures
        0 <= days_before_year(y) <= 366 * (y - 1970),
    decreases y - 1970,
{
    if y > 1970 {
        lemma_days_before_year_bound(y - 1);
    }
}

/// Law: a valid DOS timestamp (a real calendar date, with a time of day
/// before 24:00:00) read from a RAR header is shown by the Quick Look
/// listing as the very date, hour and minute it records.
pub proof fn law_dos_time_shown_as_recorded(t: u32)
    requires
        t != 0,
        1 <= dos_month(t) <= 12,
        1 <= dos_day(t) <= month_len(is_leap_spec(dos_year(t)), dos_month(t) - 1),
        dos_hour(t) < 24,
        dos_minute(t) < 60,
        dos_second(t) < 60,
    ensures
        dos_to_unix_spec(t) matches Some(ts) && format_unix_utc_spec(ts as nat) == decimal_padded(
            dos_year(t) as nat,
            4,
        ) + "-"@ + decimal_padded(dos_month(t) as nat, 2) + "-"@ + decimal_padded(dos_day(t) as nat, 2)
            + " "@ + decimal_padded(dos_hour(t) as nat, 2) + ":"@ + decimal_padded(dos_minute(t) as nat, 2),
{
    let y = dos_year(t);
    let m = dos_month(t);
    let d = dos_day(t);
    let h = dos_hour(t);
    let mi = dos_minute(t);
    let s = dos_second(t);
    let leap = is_leap_spec(y);
    assert(1980 <= y <= 2107) by {
        assert(t as int / 33554432 <= 127);
    }
    assert(month_len(leap, m - 1) <= 31);
    lemma_civil_jan1(y);
    lemma_civil_in_year(y, m, d);
    let r = days_before_month(leap, m - 1) + d - 1;
    lemma_days_before_month_grows(leap, 0, m - 1);
    assert(0 <= r < year_len(y)) by {
        reveal_with_fuel(days_before_month, 12);
    }
    let days = civil_days(y, m, d);
    assert(days == days_before_year(y) + r);
    lemma_days_before_year_grows(1970, y);
    let sod = h * 3600 + mi * 60 + s;
    assert(0 <= sod < 86400);
    let ts = days * 86400 + sod;
    assert(days >= 0);
    assert(days <= 60000) by {
        lemma_days_before_year_bound(y);
    }
    assert(ts <= u64::MAX);
    vstd::arithmetic::div_mod::lemma_fundamental_div_mod_converse(ts, 86400, days, sod);
    assert(ts / 86400 == days);
    assert(ts % 86400 == sod);
    lemma_split_years_at(1970, y, r);
    assert(split_years(days, 1970) == (y, r));
    lemma_month_day_at(leap, 0, m, d);
    assert(month_day_from(leap, r, 0) == (m, d));
    vstd::arithmetic::div_mod::lemma_fundamental_div_mod_converse(sod, 3600, h, mi * 60 + s);
    vstd::arithmetic::div_mod::lemma_fundamental_div_mod_converse(mi * 60 + s, 60, mi, s);
    assert(dos_to_unix_spec(t) == Some(ts as u64));
}

} // verus!
