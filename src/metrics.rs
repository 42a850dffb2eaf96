//! Classified plays of an event log, rolling counters and velocity
//! projections.
use crate::calendar::{
    day_start, day_start_of, hour, hour_of, listen_time, month_key, month_key_of, year_of_key,
    MAX_YEAR, MIN_LISTEN_TS,
};
use crate::catalog::CatalogIndex;
use crate::classify::{
    classified_group, classify_position, duration_ms, resolved_duration, resolved_recording,
};
use crate::models::Listen;
use crate::period::{minutes_of, Play, MAX_PLAYS, MAX_PLAY_MINUTES, MAX_PLAY_MS};
use vstd::prelude::*;

verus! {

pub const SECONDS_PER_WEEK: i64 = 604_800;

/// The rolling month: 30 days.
pub const SECONDS_PER_MONTH: i64 = 2_592_000;

/// The rolling year: 365 days.
pub const SECONDS_PER_YEAR: i64 = 31_536_000;

/// Positions of the classified events of a log, in log order.
pub open spec fn classified_positions(ls: Seq<Listen>, ix: CatalogIndex) -> Seq<int>
    decreases ls.len(),
{
    if ls.len() == 0 {
        Seq::empty()
    } else if classified_group(ls.last().track_metadata, ix).is_some() {
        classified_positions(ls.drop_last(), ix).push(ls.len() - 1)
    } else {
        classified_positions(ls.drop_last(), ix)
    }
}

/// `p` is the play of event `l`, found at position `pos` of the log.
pub open spec fn play_of(p: Play, l: Listen, pos: int, ix: CatalogIndex) -> bool {
    &&& p.ts == l.listened_at
    &&& p.day == day_start_of(l.listened_at as int)
    &&& p.month == month_key_of(l.listened_at as int)
    &&& p.hour == hour_of(l.listened_at as int)
    &&& Some(p.recording@) == resolved_recording(l.track_metadata)
    &&& Some(p.group as int) == classified_group(l.track_metadata, ix)
    &&& p.track@ == l.track_metadata.track_name@
    &&& p.ms == resolved_duration(l.track_metadata)
    &&& p.pos == pos
}

/// What every play satisfies.
pub open spec fn play_valid(p: Play, ix: CatalogIndex) -> bool {
    &&& listen_time(p.ts as int)
    &&& p.day == day_start_of(p.ts as int)
    &&& p.hour == hour_of(p.ts as int)
    &&& 0 <= p.month
    &&& year_of_key(p.month as int) <= MAX_YEAR
    &&& p.ms <= MAX_PLAY_MS
    &&& p.group < ix.groups@.len()
}

/// `plays` are the plays of the classified events of `ls`, in log order.
pub open spec fn plays_of_log(plays: Seq<Play>, ls: Seq<Listen>, ix: CatalogIndex) -> bool {
    &&& plays.len() == classified_positions(ls, ix).len()
    &&& forall|k: int|
        0 <= k < plays.len() ==> {
            &&& play_of(#[trigger] plays[k], ls[classified_positions(ls, ix)[k]], classified_positions(ls, ix)[k], ix)
            &&& play_valid(plays[k], ix)
        }
}

/// The log is one the engine takes: not too long, every time in range.
pub open spec fn log_ok(ls: Seq<Listen>) -> bool {
    &&& ls.len() <= MAX_PLAYS
    &&& forall|i: int| 0 <= i < ls.len() ==> listen_time((#[trigger] ls[i]).listened_at as int)
}

pub proof fn lemma_positions_bounded(ls: Seq<Listen>, ix: CatalogIndex)
    ensures
        classified_positions(ls, ix).len() <= ls.len(),
        forall|k: int|
            0 <= k < classified_positions(ls, ix).len() ==> 0 <= #[trigger] classified_positions(ls, ix)[k] < ls.len(),
    decreases ls.len(),
{
    if ls.len() > 0 {
        lemma_positions_bounded(ls.drop_last(), ix);
    }
}

/// The plays of the classified events of a log, in log order.
pub fn collect_plays(listens: &Vec<Listen>, ix: &CatalogIndex) -> (r: Vec<Play>)
    requires
        ix.wf(),
        log_ok(listens@),
    ensures
        plays_of_log(r@, listens@, *ix),
{
    let mut r: Vec<Play> = Vec::new();
    let mut i: usize = 0;
    while i < listens.len()
        invariant
            ix.wf(),
            log_ok(listens@),
            i <= listens@.len(),
            plays_of_log(r@, listens@.take(i as int), *ix),
        decreases listens@.len() - i,
    {
        let ghost pre = listens@.take(i as int);
        let ghost post = listens@.take(i as int + 1);
        assert(post.drop_last() == pre && post.last() == listens@[i as int]);
        proof {
            lemma_positions_bounded(pre, *ix);
        }
        let l = &listens[i];
        assert(listen_time(l.listened_at as int));
        let meta = &l.track_metadata;
        match classify_position(meta, ix) {
            Some((recording, group)) => {
                let ts = l.listened_at;
                let p = Play {
                    ts,
                    day: day_start(ts),
                    month: month_key(ts),
                    hour: hour(ts),
                    recording,
                    group,
                    track: meta.track_name.clone(),
                    ms: duration_ms(meta),
                    pos: i,
                };
                let ghost r0 = r@;
                assert(classified_positions(post, *ix) == classified_positions(pre, *ix).push(i as int));
                assert(play_of(p, post[i as int], i as int, *ix));
                assert(play_valid(p, *ix));
                r.push(p);
                assert forall|k: int| 0 <= k < r@.len() implies {
                    &&& play_of(#[trigger] r@[k], post[classified_positions(post, *ix)[k]], classified_positions(post, *ix)[k], *ix)
                    &&& play_valid(r@[k], *ix)
                } by {
                    if k < r0.len() {
                        assert(r@[k] == r0[k]);
                        assert(post[classified_positions(pre, *ix)[k]] == pre[classified_positions(pre, *ix)[k]]);
                    }
                }
            },
            None => {
                assert forall|k: int| 0 <= k < r@.len() implies {
                    &&& play_of(#[trigger] r@[k], post[classified_positions(post, *ix)[k]], classified_positions(post, *ix)[k], *ix)
                    &&& play_valid(r@[k], *ix)
                } by {
                    assert(post[classified_positions(pre, *ix)[k]] == pre[classified_positions(pre, *ix)[k]]);
                }
            },
        }
        i = i + 1;
    }
    assert(listens@.take(i as int) == listens@);
    r
}

/// `a` comes no later than `b`: by time, then by position in the log.
pub open spec fn in_time_order(a: Play, b: Play) -> bool {
    a.ts < b.ts || (a.ts == b.ts && a.pos <= b.pos)
}

/// `chron` holds the plays of `plays` in time order.
pub open spec fn chronological(chron: Seq<Play>, plays: Seq<Play>) -> bool {
    &&& chron.to_multiset() == plays.to_multiset()
    &&& forall|i: int, j: int| 0 <= i < j < chron.len() ==> in_time_order(chron[i], chron[j])
}

/// Relies on `slice::sort_by_key`: the plays are rearranged so that their
/// keys (time, then log position) never decrease.
#[verifier::external_body]
fn sort_by_time(plays: &mut Vec<Play>)
    ensures
        chronological(final(plays)@, old(plays)@),
{
    plays.sort_by_key(|p| (p.ts, p.pos));
}

/// The plays of the classified events of a log, in time order.
pub fn chronological_plays(listens: &Vec<Listen>, ix: &CatalogIndex) -> (r: Vec<Play>)
    requires
        ix.wf(),
        log_ok(listens@),
    ensures
        exists|plays: Seq<Play>| plays_of_log(plays, listens@, *ix) && chronological(r@, plays),
        r@.len() == classified_positions(listens@, *ix).len(),
        forall|i: int| 0 <= i < r@.len() ==> play_valid(#[trigger] r@[i], *ix),
{
    let mut plays = collect_plays(listens, ix);
    let ghost logged = plays@;
    sort_by_time(&mut plays);
    proof {
        broadcast use vstd::seq_lib::group_to_multiset_ensures;
        assert(plays@.len() == plays@.to_multiset().len());
        assert(logged.len() == logged.to_multiset().len());
        assert forall|i: int| 0 <= i < plays@.len() implies play_valid(#[trigger] plays@[i], *ix) by {
            assert(plays@.contains(plays@[i]));
            assert(plays@.to_multiset().count(plays@[i]) > 0);
            assert(logged.contains(plays@[i]));
            let k = choose|k: int| 0 <= k < logged.len() && logged[k] == plays@[i];
        }
    }
    plays
}

/// A metric over the rolling windows.
#[derive(Clone, Copy, Debug, Default, PartialEq, Eq)]
pub struct PeriodMetric<T> {
    pub last_hour: T,
    pub today: T,
    pub week: T,
    pub month: T,
    pub year: T,
    pub total: T,
}

/// Number of plays of `s` at or after `lo`.
pub open spec fn count_since(s: Seq<Play>, lo: int) -> int
    decreases s.len(),
{
    if s.len() == 0 {
        0
    } else {
        count_since(s.drop_last(), lo) + if s.last().ts >= lo {
            1int
        } else {
            0int
        }
    }
}

/// Whole minutes of the plays of `s` at or after `lo`, each play's
/// duration rounded down on its own.
pub open spec fn minutes_since(s: Seq<Play>, lo: int) -> int
    decreases s.len(),
{
    if s.len() == 0 {
        0
    } else {
        minutes_since(s.drop_last(), lo) + if s.last().ts >= lo {
            minutes_of(s.last())
        } else {
            0
        }
    }
}

/// Window starts at reference time `now`: the last hour (exclusive of its
/// first second), the listening day, and the rolling week, month and year.
pub open spec fn window_starts(now: int) -> (int, int, int, int, int) {
    (now - 3_599, day_start_of(now), now - SECONDS_PER_WEEK, now - SECONDS_PER_MONTH, now - SECONDS_PER_YEAR)
}

/// `c` counts the plays of `s` in each window, `m` their minutes.
pub open spec fn counters_of(c: PeriodMetric<u64>, m: PeriodMetric<u64>, s: Seq<Play>, now: int) -> bool {
    let w = window_starts(now);
    &&& c.last_hour == count_since(s, w.0)
    &&& c.today == count_since(s, w.1)
    &&& c.week == count_since(s, w.2)
    &&& c.month == count_since(s, w.3)
    &&& c.year == count_since(s, w.4)
    &&& c.total == s.len()
    &&& m.last_hour == minutes_since(s, w.0)
    &&& m.today == minutes_since(s, w.1)
    &&& m.week == minutes_since(s, w.2)
    &&& m.month == minutes_since(s, w.3)
    &&& m.year == minutes_since(s, w.4)
    &&& m.total == minutes_since(s, MIN_LISTEN_TS as int)
}

pub proof fn lemma_since_bounds(s: Seq<Play>, lo: int)
    requires
        forall|i: int| 0 <= i < s.len() ==> (#[trigger] s[i]).ms <= MAX_PLAY_MS,
    ensures
        0 <= count_since(s, lo) <= s.len(),
        0 <= minutes_since(s, lo) <= s.len() * MAX_PLAY_MINUTES,
    decreases s.len(),
{
    if s.len() > 0 {
        assert(s.last().ms <= MAX_PLAY_MS);
        lemma_since_bounds(s.drop_last(), lo);
    }
}

/// Play counts and minutes over the rolling windows at `now`.
pub fn rolling_counters(plays: &Vec<Play>, now: i64, ix: &CatalogIndex) -> (r: (PeriodMetric<u64>, PeriodMetric<u64>))
    requires
        listen_time(now as int),
        plays@.len() <= MAX_PLAYS,
        forall|i: int| 0 <= i < plays@.len() ==> play_valid(#[trigger] plays@[i], *ix),
    ensures
        counters_of(r.0, r.1, plays@, now as int),
{
    let lo = [now - 3_599, day_start(now), now - SECONDS_PER_WEEK, now - SECONDS_PER_MONTH, now - SECONDS_PER_YEAR, MIN_LISTEN_TS];
    let mut counts: [u64; 6] = [0, 0, 0, 0, 0, 0];
    let mut minutes: [u64; 6] = [0, 0, 0, 0, 0, 0];
    let mut i: usize = 0;
    while i < plays.len()
        invariant
            i <= plays@.len(),
            plays@.len() <= MAX_PLAYS,
            forall|j: int| 0 <= j < plays@.len() ==> play_valid(#[trigger] plays@[j], *ix),
            forall|w: int| 0 <= w < 6 ==> counts@[w] == count_since(plays@.take(i as int), lo@[w] as int),
            forall|w: int| 0 <= w < 6 ==> minutes@[w] == minutes_since(plays@.take(i as int), lo@[w] as int),
        decreases plays@.len() - i,
    {
        let ghost pre = plays@.take(i as int);
        let ghost post = plays@.take(i as int + 1);
        assert(post.drop_last() == pre && post.last() == plays@[i as int]);
        assert forall|j: int| 0 <= j < pre.len() implies (#[trigger] pre[j]).ms <= MAX_PLAY_MS by {
            assert(play_valid(plays@[j], *ix));
        }
        let p = &plays[i];
        assert(play_valid(plays@[i as int], *ix));
        let m = p.ms / 60_000;
        let mut w: usize = 0;
        while w < 6
            invariant
                w <= 6,
                i < plays@.len(),
                plays@.len() <= MAX_PLAYS,
                *p == plays@[i as int],
                p.ms <= MAX_PLAY_MS,
                m == minutes_of(*p),
                pre == plays@.take(i as int),
                post == plays@.take(i as int + 1),
                post.drop_last() == pre && post.last() == *p,
                forall|j: int| 0 <= j < pre.len() ==> (#[trigger] pre[j]).ms <= MAX_PLAY_MS,
                forall|v: int| w <= v < 6 ==> counts@[v] == count_since(pre, lo@[v] as int),
                forall|v: int| w <= v < 6 ==> minutes@[v] == minutes_since(pre, lo@[v] as int),
                forall|v: int| 0 <= v < w ==> counts@[v] == count_since(post, lo@[v] as int),
                forall|v: int| 0 <= v < w ==> minutes@[v] == minutes_since(post, lo@[v] as int),
            decreases 6 - w,
        {
            proof {
                lemma_since_bounds(pre, lo@[w as int] as int);
            }
            if p.ts >= lo[w] {
                counts[w] = counts[w] + 1;
                minutes[w] = minutes[w] + m;
            }
            w = w + 1;
        }
        i = i + 1;
    }
    assert(plays@.take(i as int) == plays@);
    proof {
        assert(count_since(plays@, MIN_LISTEN_TS as int) == plays@.len()) by {
            lemma_count_all(plays@, *ix);
        }
    }
    (
        PeriodMetric {
            last_hour: counts[0],
            today: counts[1],
            week: counts[2],
            month: counts[3],
            year: counts[4],
            total: counts[5],
        },
        PeriodMetric {
            last_hour: minutes[0],
            today: minutes[1],
            week: minutes[2],
            month: minutes[3],
            year: minutes[4],
            total: minutes[5],
        },
    )
}

proof fn lemma_count_all(s: Seq<Play>, ix: CatalogIndex)
    requires
        forall|i: int| 0 <= i < s.len() ==> play_valid(#[trigger] s[i], ix),
    ensures
        count_since(s, MIN_LISTEN_TS as int) == s.len(),
    decreases s.len(),
{
    if s.len() > 0 {
        assert(play_valid(s[s.len() - 1], ix));
        lemma_count_all(s.drop_last(), ix);
    }
}

} // verus!

verus! {

/// Which rate the velocity projection uses.
#[derive(Clone, Copy, Debug, PartialEq, Eq, Structural)]
pub enum Basis {
    /// Today's minutes over the seconds since the listening day started.
    Day,
    /// The rolling week's minutes over a week.
    Week,
    /// The rolling month's minutes over 30 days.
    Month,
    /// All minutes over the seconds since the first classified play.
    Year,
}

pub open spec fn basis_of(s: Seq<char>) -> Option<Basis> {
    if s == "DAY"@ {
        Some(Basis::Day)
    } else if s == "WEEK"@ {
        Some(Basis::Week)
    } else if s == "MONTH"@ {
        Some(Basis::Month)
    } else if s == "YEAR"@ {
        Some(Basis::Year)
    } else {
        None
    }
}

/// The reporting basis named by `s` ("DAY", "WEEK", "MONTH" or "YEAR").
pub fn parse_basis(s: &str) -> (r: Option<Basis>)
    ensures
        r == basis_of(s@),
{
    let v = s.to_string();
    if v == "DAY".to_string() {
        Some(Basis::Day)
    } else if v == "WEEK".to_string() {
        Some(Basis::Week)
    } else if v == "MONTH".to_string() {
        Some(Basis::Month)
    } else if v == "YEAR".to_string() {
        Some(Basis::Year)
    } else {
        None
    }
}

/// Projected minutes over a day, a week, a 30-day month and a 365-day year.
#[derive(Clone, Copy, Debug, Default, PartialEq, Eq)]
pub struct Projections {
    pub day: u128,
    pub week: u128,
    pub month: u128,
    pub year: u128,
}

/// `minutes / elapsed * horizon`, rounded to the nearest integer (halves up).
pub open spec fn project(minutes: int, elapsed: int, horizon: int) -> int {
    (2 * minutes * horizon + elapsed) / (2 * elapsed)
}

/// Earliest time of a non-empty sequence of plays.
pub open spec fn earliest(s: Seq<Play>) -> int
    decreases s.len(),
{
    if s.len() <= 1 {
        if s.len() == 1 {
            s[0].ts as int
        } else {
            0
        }
    } else {
        let e = earliest(s.drop_last());
        if s.last().ts < e {
            s.last().ts as int
        } else {
            e
        }
    }
}

/// The rate (minutes, seconds) that the basis selects.
pub open spec fn rate_of(basis: Basis, m: PeriodMetric<u64>, s: Seq<Play>, now: int) -> (int, int) {
    match basis {
        Basis::Day => (m.today as int, if now - day_start_of(now) >= 1 {
            now - day_start_of(now)
        } else {
            1
        }),
        Basis::Week => (m.week as int, SECONDS_PER_WEEK as int),
        Basis::Month => (m.month as int, SECONDS_PER_MONTH as int),
        Basis::Year => (m.total as int, if now - earliest(s) >= 1 {
            now - earliest(s)
        } else {
            1
        }),
    }
}

/// `p` extrapolates the basis' rate to each horizon; all zero without a basis.
pub open spec fn projects(p: Projections, basis: Option<Basis>, m: PeriodMetric<u64>, s: Seq<Play>, now: int) -> bool {
    match basis {
        Some(b) => {
            let (minutes, elapsed) = rate_of(b, m, s, now);
            &&& p.day == project(minutes, elapsed, 86_400)
            &&& p.week == project(minutes, elapsed, SECONDS_PER_WEEK as int)
            &&& p.month == project(minutes, elapsed, SECONDS_PER_MONTH as int)
            &&& p.year == project(minutes, elapsed, SECONDS_PER_YEAR as int)
        },
        None => p == Projections { day: 0, week: 0, month: 0, year: 0 },
    }
}

fn project_exec(minutes: u64, elapsed: u64, horizon: u64) -> (r: u128)
    requires
        1 <= elapsed,
        horizon <= SECONDS_PER_YEAR,
        minutes <= MAX_PLAYS * MAX_PLAY_MINUTES,
    ensures
        r as int == project(minutes as int, elapsed as int, horizon as int),
{
    assert(2 * (minutes as int) * (horizon as int) <= 2 * (MAX_PLAYS * MAX_PLAY_MINUTES) * SECONDS_PER_YEAR) by (nonlinear_arith)
        requires minutes <= MAX_PLAYS * MAX_PLAY_MINUTES, horizon <= SECONDS_PER_YEAR, minutes >= 0, horizon >= 0;
    let num = 2 * (minutes as u128) * (horizon as u128) + elapsed as u128;
    num / (2 * elapsed as u128)
}

/// Earliest time of a non-empty play list.
fn earliest_exec(plays: &Vec<Play>) -> (r: i64)
    requires
        plays@.len() >= 1,
    ensures
        r as int == earliest(plays@),
{
    let mut e = plays[0].ts;
    let mut i: usize = 1;
    assert(plays@.take(1).drop_last().len() == 0);
    while i < plays.len()
        invariant
            1 <= i <= plays@.len(),
            e as int == earliest(plays@.take(i as int)),
        decreases plays@.len() - i,
    {
        assert(plays@.take(i as int + 1).drop_last() == plays@.take(i as int));
        if plays[i].ts < e {
            e = plays[i].ts;
        }
        i = i + 1;
    }
    assert(plays@.take(i as int) == plays@);
    e
}

/// Latest time of a non-empty sequence of plays.
pub open spec fn latest(s: Seq<Play>) -> int
    decreases s.len(),
{
    if s.len() <= 1 {
        if s.len() == 1 {
            s[0].ts as int
        } else {
            0
        }
    } else {
        let e = latest(s.drop_last());
        if s.last().ts > e {
            s.last().ts as int
        } else {
            e
        }
    }
}

/// Latest time of a non-empty play list.
pub fn latest_exec(plays: &Vec<Play>) -> (r: i64)
    requires
        plays@.len() >= 1,
    ensures
        r as int == latest(plays@),
{
    let mut e = plays[0].ts;
    let mut i: usize = 1;
    assert(plays@.take(1).drop_last().len() == 0);
    while i < plays.len()
        invariant
            1 <= i <= plays@.len(),
            e as int == latest(plays@.take(i as int)),
        decreases plays@.len() - i,
    {
        assert(plays@.take(i as int + 1).drop_last() == plays@.take(i as int));
        if plays[i].ts > e {
            e = plays[i].ts;
        }
        i = i + 1;
    }
    assert(plays@.take(i as int) == plays@);
    e
}

pub proof fn lemma_latest_bounds(s: Seq<Play>, ix: CatalogIndex)
    requires
        s.len() >= 1,
        forall|i: int| 0 <= i < s.len() ==> play_valid(#[trigger] s[i], ix),
    ensures
        listen_time(latest(s)),
    decreases s.len(),
{
    assert(play_valid(s[s.len() - 1], ix));
    assert(play_valid(s[0], ix));
    if s.len() > 1 {
        lemma_latest_bounds(s.drop_last(), ix);
    }
}

pub proof fn lemma_earliest_bounds(s: Seq<Play>, ix: CatalogIndex)
    requires
        s.len() >= 1,
        forall|i: int| 0 <= i < s.len() ==> play_valid(#[trigger] s[i], ix),
    ensures
        listen_time(earliest(s)),
    decreases s.len(),
{
    assert(play_valid(s[s.len() - 1], ix));
    assert(play_valid(s[0], ix));
    if s.len() > 1 {
        lemma_earliest_bounds(s.drop_last(), ix);
    }
}

/// The velocity projections at `now` for a non-empty play list.
pub fn projections(basis: Option<Basis>, m: &PeriodMetric<u64>, plays: &Vec<Play>, now: i64, ix: &CatalogIndex) -> (p: Projections)
    requires
        listen_time(now as int),
        plays@.len() >= 1,
        plays@.len() <= MAX_PLAYS,
        forall|i: int| 0 <= i < plays@.len() ==> play_valid(#[trigger] plays@[i], *ix),
        m.today <= MAX_PLAYS * MAX_PLAY_MINUTES,
        m.week <= MAX_PLAYS * MAX_PLAY_MINUTES,
        m.month <= MAX_PLAYS * MAX_PLAY_MINUTES,
        m.total <= MAX_PLAYS * MAX_PLAY_MINUTES,
    ensures
        projects(p, basis, *m, plays@, now as int),
{
    let (minutes, elapsed): (u64, u64) = match basis {
        Some(Basis::Day) => {
            let d = now - day_start(now);
            (m.today, if d >= 1 { d as u64 } else { 1 })
        },
        Some(Basis::Week) => (m.week, SECONDS_PER_WEEK as u64),
        Some(Basis::Month) => (m.month, SECONDS_PER_MONTH as u64),
        Some(Basis::Year) => {
            proof {
                lemma_earliest_bounds(plays@, *ix);
            }
            let d = now - earliest_exec(plays);
            (m.total, if d >= 1 { d as u64 } else { 1 })
        },
        None => {
            return Projections { day: 0, week: 0, month: 0, year: 0 };
        },
    };
    Projections {
        day: project_exec(minutes, elapsed, 86_400),
        week: project_exec(minutes, elapsed, SECONDS_PER_WEEK as u64),
        month: project_exec(minutes, elapsed, SECONDS_PER_MONTH as u64),
        year: project_exec(minutes, elapsed, SECONDS_PER_YEAR as u64),
    }
}

} // verus!
