//! Text insights: the runner-up month and the relative time of a listen.
use crate::calendar::valid_timestamp;
use crate::ranking::{is_ranking, rank_top};
use crate::stats::{month_minute_items, MonthlyWrapped};
use chrono::DateTime;
use vstd::prelude::*;

verus! {

/// The decimal digit `d` (0 to 9).
pub open spec fn digit_of(d: int) -> Seq<char> {
    if d == 0 {
        "0"@
    } else if d == 1 {
        "1"@
    } else if d == 2 {
        "2"@
    } else if d == 3 {
        "3"@
    } else if d == 4 {
        "4"@
    } else if d == 5 {
        "5"@
    } else if d == 6 {
        "6"@
    } else if d == 7 {
        "7"@
    } else if d == 8 {
        "8"@
    } else {
        "9"@
    }
}

/// Decimal digits of a natural number, most significant first.
pub open spec fn digits_of(n: nat) -> Seq<char>
    decreases n,
{
    if n < 10 {
        digit_of(n as int)
    } else {
        digits_of(n / 10) + digit_of((n % 10) as int)
    }
}

/// Decimal form of an integer, with a leading '-' when negative.
pub open spec fn decimal_of(n: int) -> Seq<char> {
    if n < 0 {
        "-"@ + digits_of((-n) as nat)
    } else {
        digits_of(n as nat)
    }
}

/// The label "Jan 02" of a timestamp in UTC, as chrono formats it.
pub uninterp spec fn short_date_of(ts: int) -> Seq<char>;

fn digit(d: u64) -> (r: &'static str)
    requires
        d < 10,
    ensures
        r@ == digit_of(d as int),
{
    match d {
        0 => "0",
        1 => "1",
        2 => "2",
        3 => "3",
        4 => "4",
        5 => "5",
        6 => "6",
        7 => "7",
        8 => "8",
        _ => "9",
    }
}

fn digits(n: u64) -> (r: String)
    ensures
        r@ == digits_of(n as nat),
    decreases n,
{
    if n < 10 {
        digit(n).to_string()
    } else {
        let mut s = digits(n / 10);
        s.append(digit(n % 10));
        s
    }
}

/// The decimal form of `n`.
pub fn decimal(n: i64) -> (r: String)
    ensures
        r@ == decimal_of(n as int),
{
    if n < 0 {
        let mut s = "-".to_string();
        let magnitude = (0 - (n as i128)) as u64;
        let d = digits(magnitude);
        s.append(d.as_str());
        s
    } else {
        digits(n as u64)
    }
}

/// Relies on chrono's `DateTime::format` with the pattern "%b %d".
#[verifier::external_body]
fn utc_short_date(ts: i64) -> (r: String)
    requires
        valid_timestamp(ts as int),
    ensures
        r@ == short_date_of(ts as int),
{
    DateTime::from_timestamp(ts, 0).unwrap().format("%b %d").to_string()
}

/// How long ago `ts` was at `now`: "Just now" under a minute, then whole
/// minutes ("5m ago"), then whole hours ("3h ago"), then the date ("Mar 10").
pub open spec fn relative_time_of(ts: int, now: int) -> Seq<char> {
    let diff = now - ts;
    if diff < 60 {
        "Just now"@
    } else if diff < 3_600 {
        decimal_of(diff / 60) + "m ago"@
    } else if diff < 86_400 {
        decimal_of(diff / 3_600) + "h ago"@
    } else {
        short_date_of(ts)
    }
}

pub fn format_relative_time(ts: i64, now: i64) -> (r: String)
    requires
        valid_timestamp(ts as int),
        valid_timestamp(now as int),
    ensures
        r@ == relative_time_of(ts as int, now as int),
{
    let diff = now - ts;
    if diff < 60 {
        "Just now".to_string()
    } else if diff < 3_600 {
        let mut s = decimal(diff / 60);
        s.append("m ago");
        s
    } else if diff < 86_400 {
        let mut s = decimal(diff / 3_600);
        s.append("h ago");
        s
    } else {
        utc_short_date(ts)
    }
}

/// A titled fact shown on the dashboard.
pub struct Insight {
    pub title: String,
    pub value: String,
    pub description: String,
}

/// The runner-up month by minutes: "2nd Most Active Month", valued
/// "<month name> <year>", described "Time: <hours>h".
pub open spec fn runner_up_insight(i: Insight, m: MonthlyWrapped) -> bool {
    &&& i.title@ == "2nd Most Active Month"@
    &&& i.value@ == m.month_name@ + " "@ + decimal_of(m.year as int)
    &&& i.description@ == "Time: "@ + decimal_of(m.total_minutes as int / 60) + "h"@
}

/// The insights of a month list: with at least two months, the runner-up
/// by minutes (ties: the earlier in the list ranks first); else none.
pub fn insights(months: &Vec<MonthlyWrapped>) -> (r: Vec<Insight>)
    ensures
        months@.len() < 2 ==> r@.len() == 0,
        months@.len() >= 2 ==> r@.len() == 1 && exists|rk: Seq<usize>|
            is_ranking(month_minute_items(months@), 2, rk) && runner_up_insight(r@[0], months@[rk[1] as int]),
{
    let mut r: Vec<Insight> = Vec::new();
    if months.len() < 2 {
        return r;
    }
    let mut mins: Vec<(u64, u64)> = Vec::new();
    let mut k: usize = 0;
    while k < months.len()
        invariant
            k <= months@.len(),
            mins@ == month_minute_items(months@).take(k as int),
        decreases months@.len() - k,
    {
        mins.push((months[k].total_minutes, 0));
        assert(mins@ =~= month_minute_items(months@).take(k as int + 1));
        k = k + 1;
    }
    assert(mins@ =~= month_minute_items(months@));
    let top = rank_top(&mins, 2);
    assert(crate::ranking::is_next(mins@, top@.take(1), top@[1] as int));
    let m = &months[top[1]];
    let mut value = m.month_name.clone();
    value.append(" ");
    let year = decimal(m.year as i64);
    value.append(year.as_str());
    let mut description = "Time: ".to_string();
    let hours = decimal((m.total_minutes / 60) as i64);
    description.append(hours.as_str());
    description.append("h");
    r.push(Insight { title: "2nd Most Active Month".to_string(), value, description });
    r
}

} // verus!
