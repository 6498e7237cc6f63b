use vstd::prelude::*;
use chrono::{Datelike, TimeZone};

verus! {

/// The calendar year, in UTC, of a count of seconds since the epoch; none
/// where chrono has no such instant.
pub uninterp spec fn utc_year(ts: int) -> Option<int>;

/// The calendar month (1 to 12), in UTC, of a count of seconds since the
/// epoch; none where chrono has no such instant.
pub uninterp spec fn utc_month(ts: int) -> Option<int>;

/// Relies on chrono's `Utc.timestamp_opt` and `Datelike::year`: the UTC year of
/// the instant, if chrono has it.
#[verifier::external_body]
fn year_of(ts: i64) -> (r: Option<i32>)
    ensures
        r matches Some(y) ==> utc_year(ts as int) == Some(y as int),
        r is None ==> utc_year(ts as int) is None,
{
    match chrono::Utc.timestamp_opt(ts, 0).single() {
        Some(d) => Some(d.year()),
        None => None,
    }
}

/// Relies on chrono's `Utc.timestamp_opt` and `Datelike::month`: the UTC month,
/// numbered from 1 to 12, of the instant, if chrono has it.
#[verifier::external_body]
fn month_of(ts: i64) -> (r: Option<u32>)
    ensures
        r matches Some(m) ==> utc_month(ts as int) == Some(m as int),
        r matches Some(m) ==> 1 <= m <= 12,
        r is None ==> utc_month(ts as int) is None,
{
    match chrono::Utc.timestamp_opt(ts, 0).single() {
        Some(d) => Some(d.month()),
        None => None,
    }
}

/// The decimal digits of a natural number, most significant first.
pub open spec fn decimal(n: nat) -> Seq<char>
    decreases n,
{
    if n < 10 {
        seq!["0123456789"@[n as int]]
    } else {
        decimal(n / 10).push("0123456789"@[(n % 10) as int])
    }
}

/// An integer in decimal, with a leading minus sign when negative.
pub open spec fn signed_decimal(n: int) -> Seq<char> {
    if n < 0 {
        "-"@ + decimal((-n) as nat)
    } else {
        decimal(n as nat)
    }
}

/// The month bucket key: the year, a dash, and the month in two digits.
pub open spec fn month_key(year: int, month: int) -> Seq<char> {
    signed_decimal(year) + "-"@ + if month < 10 {
        "0"@ + decimal(month as nat)
    } else {
        decimal(month as nat)
    }
}

/// Appends the decimal digits of `n` to `s`.
fn push_decimal(s: &mut String, n: u64)
    ensures
        final(s)@ == old(s)@ + decimal(n as nat),
    decreases n,
{
    let digits = "0123456789";
    proof {
        reveal_strlit("0123456789");
    }
    if n >= 10 {
        push_decimal(s, n / 10);
    }
    let k = (n % 10) as usize;
    let d = digits.substring_char(k, k + 1);
    assert(d@ =~= seq!["0123456789"@[k as int]]);
    s.append(d);
    assert(final(s)@ =~= old(s)@ + decimal(n as nat)) by {
        if n >= 10 {
            assert(decimal(n as nat) == decimal((n / 10) as nat).push("0123456789"@[(n % 10) as int]));
        }
    }
}

/// The month bucket key of a year and a month: the year in decimal, a dash,
/// and the month in two digits.
fn month_key_text(year: i32, month: u32) -> (r: String)
    requires
        1 <= month <= 12,
    ensures
        r@ == month_key(year as int, month as int),
{
    let mut r = String::new();
    if year < 0 {
        r.append("-");
        push_decimal(&mut r, (0 - (year as i64)) as u64);
    } else {
        push_decimal(&mut r, year as u64);
    }
    r.append("-");
    if month < 10 {
        r.append("0");
    }
    push_decimal(&mut r, month as u64);
    proof {
        reveal_strlit("-");
        reveal_strlit("0");
    }
    assert(r@ =~= month_key(year as int, month as int));
    r
}

/// The month bucket of an author time: its UTC year and month, or the
/// epoch's month for an instant that the calendar cannot hold.
pub open spec fn bucket_key_of(ts: int) -> Seq<char> {
    match (utc_year(ts), utc_month(ts)) {
        (Some(y), Some(m)) => month_key(y, m),
        _ => month_key(1970, 1),
    }
}

/// The month bucket of a commit authored `ts` seconds after the epoch.
pub fn month_key_of(ts: i64) -> (r: String)
    ensures
        r@ == bucket_key_of(ts as int),
{
    match (year_of(ts), month_of(ts)) {
        (Some(y), Some(m)) => month_key_text(y, m),
        _ => month_key_text(1970, 1),
    }
}

} // verus!
