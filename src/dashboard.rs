//! The dashboard: every metric, ranking and chart series computed from one
//! event log, catalog, reference time and reporting basis.
//!
//! The classified events are taken in time order (ties by log position);
//! wherever a ranking ties, the period, album or track seen first ranks first.
use crate::calendar::{day_start, day_start_of, listen_time, MAX_LISTEN_TS};
use crate::catalog::CatalogIndex;
use crate::charts::{
    album_completion, album_weight, completion_chart, consistency_grid, discovery_timeline,
    forgotten_chart, forgotten_classics, hourly_activity, monthly_volume, song_of_the_day,
    song_of_the_day_is, timeline_of, track_time_leaderboard, weight_chart, time_chart,
    yearly_distribution, year_table, count_hour, FORGOTTEN_DAYS, FORGOTTEN_MIN_PLAYS, GRID_DAYS,
    VOLUME_MONTHS,
};
use crate::metrics::{
    basis_of, classified_positions, log_ok, parse_basis, play_valid,
    plays_of_log, projections, projects, rolling_counters, counters_of, Basis, PeriodMetric,
    Projections, SECONDS_PER_MONTH, SECONDS_PER_WEEK, SECONDS_PER_YEAR,
};
use crate::insights::{format_relative_time, insights, relative_time_of, runner_up_insight, Insight};
use crate::metrics::{chronological, chronological_plays, latest, latest_exec, lemma_latest_bounds};
use crate::charts::{type_distribution, type_items, type_table};
use crate::models::Listen;
use crate::period::{
    bucket_total, buckets_of, group_by_period, lemma_bucket_count, lemma_partition, with_key,
    Bucket, PeriodWork, Play, MAX_PLAYS,
};
use crate::ranking::{
    is_next, is_permutation, is_ranking, lemma_ranking_permutes, lemma_sum_permuted, sum_ints,
};
use crate::stats::{
    build_history, build_months, day_badges_ranked, describes_day, describes_month,
    month_badges_ranked, month_minute_items, month_recency_items, recency_items, DayStats,
    MonthlyWrapped, ALBUMS_CAP, RATIO_ONE,
};
use vstd::prelude::*;

verus! {

/// Everything the dashboard shows.
pub struct DashboardMetrics {
    pub counts: PeriodMetric<u64>,
    /// Album-equivalents in parts per million; the last hour is not tracked.
    pub albums: PeriodMetric<u128>,
    pub minutes: PeriodMetric<u64>,
    pub projections: Projections,
    pub favorite_album_today: String,
    pub song_of_the_day: Option<(String, String)>,
    /// One entry per listening day, latest first.
    pub history: Vec<DayStats>,
    /// One entry per calendar month, latest first.
    pub rewards: Vec<MonthlyWrapped>,
    pub yearly_distribution: Vec<(i32, u64)>,
    pub album_completion: Vec<(String, u64, Option<String>)>,
    pub monthly_volume: Vec<(String, u64)>,
    pub track_time_leaderboard: Vec<(String, u64)>,
    pub hourly_activity: Vec<(u32, u64)>,
    pub discovery_timeline: Vec<(i64, u64)>,
    pub consistency_grid: Vec<(i64, u64)>,
    pub album_weight: Vec<(String, u64, Option<String>)>,
    pub forgotten_classics: Vec<(String, u64, u64)>,
    /// Plays per release type, most played first.
    pub type_distribution: Vec<(String, u64)>,
    pub insights: Vec<Insight>,
    /// How long ago the latest classified play was.
    pub last_listen_display: String,
}

pub open spec fn zero_u64() -> PeriodMetric<u64> {
    PeriodMetric { last_hour: 0, today: 0, week: 0, month: 0, year: 0, total: 0 }
}

pub open spec fn zero_u128() -> PeriodMetric<u128> {
    PeriodMetric { last_hour: 0, today: 0, week: 0, month: 0, year: 0, total: 0 }
}

/// `m` is the all-default dashboard.
pub open spec fn is_empty_dashboard(m: DashboardMetrics) -> bool {
    &&& m.counts == zero_u64()
    &&& m.minutes == zero_u64()
    &&& m.albums == zero_u128()
    &&& m.projections == Projections { day: 0, week: 0, month: 0, year: 0 }
    &&& m.favorite_album_today@.len() == 0
    &&& m.song_of_the_day.is_none()
    &&& m.history@.len() == 0
    &&& m.rewards@.len() == 0
    &&& m.yearly_distribution@.len() == 0
    &&& m.album_completion@.len() == 0
    &&& m.monthly_volume@.len() == 0
    &&& m.track_time_leaderboard@.len() == 0
    &&& m.hourly_activity@.len() == 0
    &&& m.discovery_timeline@.len() == 0
    &&& m.consistency_grid@.len() == 0
    &&& m.album_weight@.len() == 0
    &&& m.forgotten_classics@.len() == 0
    &&& m.type_distribution@.len() == 0
    &&& m.insights@.len() == 0
    &&& m.last_listen_display@.len() == 0
}

impl DashboardMetrics {
    /// The all-default dashboard, shown when nothing is classified.
    pub fn empty() -> (m: DashboardMetrics)
        ensures
            is_empty_dashboard(m),
    {
        let z = PeriodMetric { last_hour: 0u64, today: 0, week: 0, month: 0, year: 0, total: 0 };
        DashboardMetrics {
            counts: z,
            albums: PeriodMetric { last_hour: 0u128, today: 0, week: 0, month: 0, year: 0, total: 0 },
            minutes: z,
            projections: Projections { day: 0, week: 0, month: 0, year: 0 },
            favorite_album_today: String::new(),
            song_of_the_day: None,
            history: Vec::new(),
            rewards: Vec::new(),
            yearly_distribution: Vec::new(),
            album_completion: Vec::new(),
            monthly_volume: Vec::new(),
            track_time_leaderboard: Vec::new(),
            hourly_activity: Vec::new(),
            discovery_timeline: Vec::new(),
            consistency_grid: Vec::new(),
            album_weight: Vec::new(),
            forgotten_classics: Vec::new(),
            type_distribution: Vec::new(),
            insights: Vec::new(),
            last_listen_display: String::new(),
        }
    }
}

/// Album-equivalents of the days of `h` that start within `[lo, hi]`.
pub open spec fn albums_within(h: Seq<DayStats>, lo: int, hi: int) -> int
    decreases h.len(),
{
    if h.len() == 0 {
        0
    } else {
        albums_within(h.drop_last(), lo, hi) + if lo <= h.last().timestamp <= hi {
            h.last().albums_completed as int
        } else {
            0
        }
    }
}

/// Scrobbles summed over the days of `h`.
pub open spec fn day_scrobbles(h: Seq<DayStats>) -> int {
    sum_ints(h.map_values(|d: DayStats| d.scrobbles as int))
}

/// `a` sums the album-equivalents of the history `h` over the windows at `now`.
pub open spec fn albums_of(a: PeriodMetric<u128>, h: Seq<DayStats>, now: int) -> bool {
    &&& a.last_hour == 0
    &&& a.today == albums_within(h, day_start_of(now), day_start_of(now))
    &&& a.week == albums_within(h, now - SECONDS_PER_WEEK, MAX_LISTEN_TS as int)
    &&& a.month == albums_within(h, now - SECONDS_PER_MONTH, MAX_LISTEN_TS as int)
    &&& a.year == albums_within(h, now - SECONDS_PER_YEAR, MAX_LISTEN_TS as int)
    &&& a.total == albums_within(h, i64::MIN as int, MAX_LISTEN_TS as int)
}

/// The favorite album of the day of `h` that starts at `d`, or the empty string.
pub open spec fn favorite_on(h: Seq<DayStats>, d: int) -> Seq<char> {
    if exists|i: int| 0 <= i < h.len() && h[i].timestamp == d {
        h[choose|i: int| 0 <= i < h.len() && h[i].timestamp == d].favorite_album@
    } else {
        Seq::empty()
    }
}

/// The history and monthly records of the plays `s`.
pub open spec fn periods_of(m: DashboardMetrics, s: Seq<Play>, ix: CatalogIndex) -> bool {
    &&& exists|days: Seq<Bucket>, order: Seq<usize>|
        {
            &&& buckets_of(days, s, false)
            &&& is_ranking(recency_items(days), days.len() as int, order)
            &&& m.history@.len() == order.len()
            &&& forall|i: int| 0 <= i < m.history@.len() ==> describes_day(#[trigger] m.history@[i], days[order[i] as int], ix)
        }
    &&& day_badges_ranked(m.history@)
    &&& exists|months: Seq<Bucket>, order: Seq<usize>|
        {
            &&& buckets_of(months, s, true)
            &&& is_ranking(month_recency_items(months), months.len() as int, order)
            &&& m.rewards@.len() == order.len()
            &&& forall|i: int| 0 <= i < m.rewards@.len() ==> describes_month(#[trigger] m.rewards@[i], months[order[i] as int], ix, m.history@)
        }
    &&& month_badges_ranked(m.rewards@)
}

/// The chart series of the plays `s` at `now`.
pub open spec fn charts_of(m: DashboardMetrics, s: Seq<Play>, now: int, ix: CatalogIndex) -> bool {
    &&& exists|all: PeriodWork|
        {
            &&& #[trigger] all.holds(s)
            &&& completion_chart(m.album_completion@, all.albums_view(), ix)
            &&& weight_chart(m.album_weight@, all.albums_view(), ix)
            &&& time_chart(m.track_time_leaderboard@, all.tracks_view())
            &&& forgotten_chart(m.forgotten_classics@, all.tracks_view(), now)
            &&& m.forgotten_classics@.len() == 0 <==> forall|p: int|
                0 <= p < all.tracks_view().len() ==> !crate::charts::rested(
                    #[trigger] all.tracks_view()[p],
                    now,
                    FORGOTTEN_MIN_PLAYS as int,
                )
            &&& song_of_the_day_is(m.song_of_the_day, all.tracks_view(), now, ix)
        }
    &&& forall|i: int| 0 <= i < m.album_completion@.len() ==> (#[trigger] m.album_completion@[i]).1 <= RATIO_ONE
    &&& forall|i: int|
        0 <= i < m.forgotten_classics@.len() ==> (#[trigger] m.forgotten_classics@[i]).1 >= FORGOTTEN_DAYS
            && m.forgotten_classics@[i].2 > FORGOTTEN_MIN_PLAYS
    &&& timeline_of(m.discovery_timeline@, s)
    &&& forall|i: int, j: int|
        0 <= i < j < m.discovery_timeline@.len() ==> m.discovery_timeline@[i].1 < m.discovery_timeline@[j].1
            && m.discovery_timeline@[i].0 <= m.discovery_timeline@[j].0
    &&& year_table(m.yearly_distribution@, s)
    &&& forall|i: int, j: int| 0 <= i < j < m.yearly_distribution@.len() ==> m.yearly_distribution@[i].0 < m.yearly_distribution@[j].0
    &&& m.hourly_activity@.len() == 24
    &&& forall|h: int| 0 <= h < 24 ==> (#[trigger] m.hourly_activity@[h]).0 == h && m.hourly_activity@[h].1 == count_hour(s, h)
    &&& m.consistency_grid@.len() == GRID_DAYS
    &&& forall|i: int|
        0 <= i < GRID_DAYS ==> {
            &&& (#[trigger] m.consistency_grid@[i]).0 == day_start_of(now) - (GRID_DAYS - 1 - i) * 86_400
            &&& m.consistency_grid@[i].1 == with_key(s, false, m.consistency_grid@[i].0).len()
        }
    &&& m.monthly_volume@.len() == VOLUME_MONTHS
    &&& forall|i: int|
        0 <= i < VOLUME_MONTHS ==> {
            let t = now - (VOLUME_MONTHS - 1 - i) * SECONDS_PER_MONTH;
            &&& (#[trigger] m.monthly_volume@[i]).0@ == crate::calendar::month_abbrev_of(crate::calendar::civil_year_month(t).1)
            &&& m.monthly_volume@[i].1 == with_key(s, true, crate::calendar::month_key_of(t) as i64).len()
        }
}

/// The release-type series and the text insights of the plays `s` at `now`.
pub open spec fn extras_of(m: DashboardMetrics, s: Seq<Play>, now: int, ix: CatalogIndex) -> bool {
    &&& exists|t: Seq<(String, u64)>, order: Seq<usize>|
        {
            &&& type_table(t, s, ix)
            &&& is_ranking(type_items(t), t.len() as int, order)
            &&& m.type_distribution@.len() == order.len()
            &&& forall|i: int|
                0 <= i < m.type_distribution@.len() ==> (#[trigger] m.type_distribution@[i]).0@ == t[order[i] as int].0@
                    && m.type_distribution@[i].1 == t[order[i] as int].1
        }
    &&& m.rewards@.len() < 2 ==> m.insights@.len() == 0
    &&& m.rewards@.len() >= 2 ==> m.insights@.len() == 1 && exists|rk: Seq<usize>|
        is_ranking(month_minute_items(m.rewards@), 2, rk) && runner_up_insight(m.insights@[0], m.rewards@[rk[1] as int])
    &&& m.last_listen_display@ == relative_time_of(latest(s), now)
}

/// `m` is the dashboard of the plays `s` at `now` with reporting basis `basis`.
pub open spec fn dashboard_of(m: DashboardMetrics, s: Seq<Play>, now: int, basis: Option<Basis>, ix: CatalogIndex) -> bool {
    &&& counters_of(m.counts, m.minutes, s, now)
    &&& projects(m.projections, basis, m.minutes, s, now)
    &&& albums_of(m.albums, m.history@, now)
    &&& m.favorite_album_today@ == favorite_on(m.history@, day_start_of(now))
    &&& periods_of(m, s, ix)
    &&& charts_of(m, s, now, ix)
    &&& extras_of(m, s, now, ix)
}

} // verus!

verus! {

proof fn lemma_albums_within_bound(h: Seq<DayStats>, lo: int, hi: int)
    requires
        forall|i: int| 0 <= i < h.len() ==> (#[trigger] h[i]).albums_completed <= ALBUMS_CAP,
    ensures
        0 <= albums_within(h, lo, hi) <= h.len() * ALBUMS_CAP,
    decreases h.len(),
{
    if h.len() > 0 {
        assert(h[h.len() - 1].albums_completed <= ALBUMS_CAP);
        assert forall|i: int| 0 <= i < h.drop_last().len() implies (#[trigger] h.drop_last()[i]).albums_completed <= ALBUMS_CAP by {
            assert(h.drop_last()[i] == h[i]);
        }
        lemma_albums_within_bound(h.drop_last(), lo, hi);
    }
}

/// Album-equivalents of the history over the windows at `now`.
fn albums_over_windows(h: &Vec<DayStats>, now: i64) -> (a: PeriodMetric<u128>)
    requires
        listen_time(now as int),
        h@.len() <= MAX_PLAYS,
        forall|i: int| 0 <= i < h@.len() ==> (#[trigger] h@[i]).albums_completed <= ALBUMS_CAP,
    ensures
        albums_of(a, h@, now as int),
{
    let today = day_start(now);
    let lo = [today, now - SECONDS_PER_WEEK, now - SECONDS_PER_MONTH, now - SECONDS_PER_YEAR, i64::MIN];
    let hi = [today, MAX_LISTEN_TS, MAX_LISTEN_TS, MAX_LISTEN_TS, MAX_LISTEN_TS];
    let mut sums: [u128; 5] = [0, 0, 0, 0, 0];
    let mut i: usize = 0;
    while i < h.len()
        invariant
            i <= h@.len(),
            h@.len() <= MAX_PLAYS,
            forall|j: int| 0 <= j < h@.len() ==> (#[trigger] h@[j]).albums_completed <= ALBUMS_CAP,
            forall|w: int| 0 <= w < 5 ==> sums@[w] == albums_within(h@.take(i as int), lo@[w] as int, hi@[w] as int),
        decreases h@.len() - i,
    {
        let ghost pre = h@.take(i as int);
        assert(h@.take(i as int + 1).drop_last() == pre);
        assert forall|j: int| 0 <= j < pre.len() implies (#[trigger] pre[j]).albums_completed <= ALBUMS_CAP by {
            assert(pre[j] == h@[j]);
        }
        let d = &h[i];
        assert(h@[i as int].albums_completed <= ALBUMS_CAP);
        let mut w: usize = 0;
        while w < 5
            invariant
                w <= 5,
                i < h@.len(),
                h@.len() <= MAX_PLAYS,
                *d == h@[i as int],
                d.albums_completed <= ALBUMS_CAP,
                pre == h@.take(i as int),
                h@.take(i as int + 1).drop_last() == pre,
                forall|j: int| 0 <= j < pre.len() ==> (#[trigger] pre[j]).albums_completed <= ALBUMS_CAP,
                forall|v: int| w <= v < 5 ==> sums@[v] == albums_within(pre, lo@[v] as int, hi@[v] as int),
                forall|v: int| 0 <= v < w ==> sums@[v] == albums_within(h@.take(i as int + 1), lo@[v] as int, hi@[v] as int),
            decreases 5 - w,
        {
            proof {
                lemma_albums_within_bound(pre, lo@[w as int] as int, hi@[w as int] as int);
                assert(pre.len() * ALBUMS_CAP + ALBUMS_CAP <= u128::MAX) by (nonlinear_arith)
                    requires pre.len() < MAX_PLAYS;
            }
            if lo[w] <= d.timestamp && d.timestamp <= hi[w] {
                sums[w] = sums[w] + d.albums_completed;
            }
            w = w + 1;
        }
        i = i + 1;
    }
    assert(h@.take(i as int) == h@);
    PeriodMetric { last_hour: 0, today: sums[0], week: sums[1], month: sums[2], year: sums[3], total: sums[4] }
}

/// The favorite album of the day of `h` that starts at `d`.
fn favorite_of_day(h: &Vec<DayStats>, d: i64) -> (r: String)
    requires
        forall|i: int, j: int| 0 <= i < h@.len() && 0 <= j < h@.len() && i != j ==> h@[i].timestamp != h@[j].timestamp,
    ensures
        r@ == favorite_on(h@, d as int),
{
    let mut i: usize = 0;
    while i < h.len() && h[i].timestamp != d
        invariant
            i <= h@.len(),
            forall|k: int| 0 <= k < i ==> h@[k].timestamp != d,
        decreases h@.len() - i,
    {
        i = i + 1;
    }
    if i < h.len() {
        let ghost c = choose|k: int| 0 <= k < h@.len() && h@[k].timestamp == d;
        assert(c == i);
        h[i].favorite_album.clone()
    } else {
        String::new()
    }
}

proof fn lemma_total_as_sum(r: Seq<Bucket>, s: Seq<Play>, by_month: bool)
    ensures
        bucket_total(r, s, by_month) == sum_ints(r.map_values(|b: Bucket| with_key(s, by_month, b.key).len() as int)),
    decreases r.len(),
{
    if r.len() > 0 {
        lemma_total_as_sum(r.drop_last(), s, by_month);
        assert(r.map_values(|b: Bucket| with_key(s, by_month, b.key).len() as int).drop_last() =~= r.drop_last().map_values(
            |b: Bucket| with_key(s, by_month, b.key).len() as int,
        ));
    }
}

/// The listening days partition the plays: there are no more days than plays,
/// and the days' scrobbles add up to the number of plays.
proof fn lemma_history_total(days: Seq<Bucket>, order: Seq<usize>, h: Seq<DayStats>, s: Seq<Play>, ix: CatalogIndex)
    requires
        buckets_of(days, s, false),
        is_ranking(recency_items(days), days.len() as int, order),
        h.len() == order.len(),
        forall|i: int| 0 <= i < h.len() ==> describes_day(#[trigger] h[i], days[order[i] as int], ix),
        days.len() <= usize::MAX,
    ensures
        day_scrobbles(h) == s.len(),
        days.len() <= s.len(),
{
    lemma_partition(days, s, false);
    assert forall|b: int| 0 <= b < days.len() implies with_key(s, false, (#[trigger] days[b]).key).len() >= 1 by {
        assert(days[b].work.holds(with_key(s, false, days[b].key)));
    }
    lemma_bucket_count(days, s, false);
    let v = days.map_values(|b: Bucket| with_key(s, false, b.key).len() as int);
    lemma_total_as_sum(days, s, false);
    lemma_ranking_permutes(recency_items(days), order);
    assert(order.no_duplicates()) by {
        assert forall|a: int, b: int| 0 <= a < order.len() && 0 <= b < order.len() && a != b implies order[a] != order[b] by {
            let (x, y) = if a < b { (a, b) } else { (b, a) };
            assert(is_next(recency_items(days), order.take(y), order[y] as int));
            assert(order.take(y)[x] == order[x]);
        }
    }
    assert forall|i: int| 0 <= i < order.len() implies (#[trigger] order[i] as int) < days.len() by {
        assert(is_next(recency_items(days), order.take(i), order[i] as int));
    }
    assert(is_permutation(order, v.len() as int));
    lemma_sum_permuted(v, order);
    assert(h.map_values(|d: DayStats| d.scrobbles as int) =~= order.map_values(|i: usize| v[i as int])) by {
        assert forall|i: int| 0 <= i < h.len() implies h[i].scrobbles as int == v[order[i] as int] by {
            assert(describes_day(h[i], days[order[i] as int], ix));
            assert(is_next(recency_items(days), order.take(i), order[i] as int));
            assert(days[order[i] as int].work.holds(with_key(s, false, days[order[i] as int].key)));
        }
    }
}

} // verus!

verus! {

/// The accumulator of all the plays.
fn tally_all(plays: &Vec<Play>, ix: &CatalogIndex) -> (all: PeriodWork)
    requires
        plays@.len() <= MAX_PLAYS,
        forall|i: int| 0 <= i < plays@.len() ==> play_valid(#[trigger] plays@[i], *ix),
    ensures
        all.holds(plays@),
        all.bounded(),
{
    let mut all = PeriodWork::new();
    let mut i: usize = 0;
    while i < plays.len()
        invariant
            i <= plays@.len(),
            plays@.len() <= MAX_PLAYS,
            forall|j: int| 0 <= j < plays@.len() ==> play_valid(#[trigger] plays@[j], *ix),
            all.holds(plays@.take(i as int)),
            all.bounded(),
        decreases plays@.len() - i,
    {
        let ghost pre = plays@.take(i as int);
        assert(plays@.take(i as int + 1) == pre.push(plays@[i as int]));
        assert(play_valid(plays@[i as int], *ix));
        all.apply(&plays[i]);
        assert(pre.push(plays@[i as int]).drop_last() == pre);
        i = i + 1;
    }
    assert(plays@.take(i as int) == plays@);
    all
}

/// Every period bucket holds a play, whose validity bounds the bucket's key.
proof fn lemma_bucket_play(r: Seq<Bucket>, s: Seq<Play>, by_month: bool, b: int, ix: CatalogIndex)
    requires
        buckets_of(r, s, by_month),
        0 <= b < r.len(),
        forall|i: int| 0 <= i < s.len() ==> play_valid(#[trigger] s[i], ix),
    ensures
        exists|p: Play| s.contains(p) && crate::period::key_of(p, by_month) == r[b].key && play_valid(p, ix),
{
    assert(r[b].work.holds(with_key(s, by_month, r[b].key)));
    crate::period::lemma_with_key_members(s, by_month, r[b].key);
    let p = with_key(s, by_month, r[b].key)[0];
    assert(s.contains(p));
    let k = choose|k: int| 0 <= k < s.len() && s[k] == p;
    assert(play_valid(s[k], ix));
}

/// The dashboard of a non-empty list of classified plays.
pub fn metrics_from_plays(plays: &Vec<Play>, now: i64, basis: Option<Basis>, ix: &CatalogIndex) -> (m: DashboardMetrics)
    requires
        ix.wf(),
        listen_time(now as int),
        1 <= plays@.len() <= MAX_PLAYS,
        forall|i: int| 0 <= i < plays@.len() ==> play_valid(#[trigger] plays@[i], *ix),
    ensures
        dashboard_of(m, plays@, now as int, basis, *ix),
        day_scrobbles(m.history@) == m.counts.total,
{
    let (counts, minutes) = rolling_counters(plays, now, ix);
    let days = group_by_period(plays, false);
    proof {
        assert forall|b: int| 0 <= b < days@.len() implies {
            &&& (#[trigger] days@[b]).work.bounded()
            &&& crate::calendar::valid_timestamp(days@[b].key as int)
        } by {
            lemma_bucket_play(days@, plays@, false, b, *ix);
            let p = choose|p: Play| plays@.contains(p) && crate::period::key_of(p, false) == days@[b].key && play_valid(p, *ix);
            crate::calendar::lemma_day_start_bounds(p.ts as int);
        }
    }
    let ndays = days.len();
    let history = build_history(&days, ix);
    let ghost dorder = choose|order: Seq<usize>|
        {
            &&& is_ranking(recency_items(days@), days@.len() as int, order)
            &&& history@.len() == order.len()
            &&& forall|i: int| 0 <= i < history@.len() ==> describes_day(#[trigger] history@[i], days@[order[i] as int], *ix)
        };
    proof {
        lemma_history_total(days@, dorder, history@, plays@, *ix);
        assert forall|i: int| 0 <= i < history@.len() implies crate::calendar::valid_timestamp((#[trigger] history@[i]).timestamp as int) by {
            assert(describes_day(history@[i], days@[dorder[i] as int], *ix));
            assert(is_next(recency_items(days@), dorder.take(i), dorder[i] as int));
        }
        assert forall|i: int, j: int| 0 <= i < history@.len() && 0 <= j < history@.len() && i != j implies history@[i].timestamp != history@[j].timestamp by {
            assert(describes_day(history@[i], days@[dorder[i] as int], *ix));
            assert(describes_day(history@[j], days@[dorder[j] as int], *ix));
            let (x, y) = if i < j { (i, j) } else { (j, i) };
            assert(is_next(recency_items(days@), dorder.take(x), dorder[x] as int));
            assert(is_next(recency_items(days@), dorder.take(y), dorder[y] as int));
            assert(dorder.take(y)[x] == dorder[x]);
        }
    }
    let months = group_by_period(plays, true);
    proof {
        assert forall|b: int| 0 <= b < months@.len() implies {
            &&& (#[trigger] months@[b]).work.bounded()
            &&& 0 <= months@[b].key
            &&& crate::calendar::year_of_key(months@[b].key as int) <= crate::calendar::MAX_YEAR
        } by {
            lemma_bucket_play(months@, plays@, true, b, *ix);
        }
    }
    let rewards = build_months(&months, ix, &history);
    let insights = insights(&rewards);
    proof {
        lemma_latest_bounds(plays@, *ix);
    }
    let last_listen_display = format_relative_time(latest_exec(plays), now);
    let albums = albums_over_windows(&history, now);
    let favorite_album_today = favorite_of_day(&history, day_start(now));
    proof {
        assert forall|i: int| 0 <= i < plays@.len() implies (#[trigger] plays@[i]).ms <= crate::period::MAX_PLAY_MS by {
            assert(play_valid(plays@[i], *ix));
        }
        let w = crate::metrics::window_starts(now as int);
        crate::metrics::lemma_since_bounds(plays@, w.1);
        crate::metrics::lemma_since_bounds(plays@, w.2);
        crate::metrics::lemma_since_bounds(plays@, w.3);
        crate::metrics::lemma_since_bounds(plays@, crate::calendar::MIN_LISTEN_TS as int);
    }
    let projections = projections(basis, &minutes, plays, now, ix);
    let all = tally_all(plays, ix);
    let m = DashboardMetrics {
        counts,
        albums,
        minutes,
        projections,
        favorite_album_today,
        song_of_the_day: song_of_the_day(&all, now, ix),
        history,
        rewards,
        yearly_distribution: yearly_distribution(plays, ix),
        album_completion: album_completion(&all, ix),
        monthly_volume: monthly_volume(plays, now),
        track_time_leaderboard: track_time_leaderboard(&all),
        hourly_activity: hourly_activity(plays, ix),
        discovery_timeline: discovery_timeline(plays, ix),
        consistency_grid: consistency_grid(plays, now),
        album_weight: album_weight(&all, ix),
        forgotten_classics: forgotten_classics(&all, now),
        type_distribution: type_distribution(plays, ix),
        insights,
        last_listen_display,
    };
    assert(charts_of(m, plays@, now as int, *ix)) by {
        assert(all.holds(plays@));
    }
    assert(counters_of(m.counts, m.minutes, plays@, now as int));
    assert(projects(m.projections, basis, m.minutes, plays@, now as int));
    assert(albums_of(m.albums, m.history@, now as int));
    assert(m.favorite_album_today@ == favorite_on(m.history@, day_start_of(now as int)));
    assert(periods_of(m, plays@, *ix)) by {
        let morder = choose|order: Seq<usize>|
            {
                &&& is_ranking(month_recency_items(months@), months@.len() as int, order)
                &&& m.rewards@.len() == order.len()
                &&& forall|i: int| 0 <= i < m.rewards@.len() ==> describes_month(#[trigger] m.rewards@[i], months@[order[i] as int], *ix, m.history@)
            };
        assert({
            &&& buckets_of(days@, plays@, false)
            &&& is_ranking(recency_items(days@), days@.len() as int, dorder)
            &&& m.history@.len() == dorder.len()
            &&& forall|i: int| 0 <= i < m.history@.len() ==> describes_day(#[trigger] m.history@[i], days@[dorder[i] as int], *ix)
        });
        assert({
            &&& buckets_of(months@, plays@, true)
            &&& is_ranking(month_recency_items(months@), months@.len() as int, morder)
            &&& m.rewards@.len() == morder.len()
            &&& forall|i: int| 0 <= i < m.rewards@.len() ==> describes_month(#[trigger] m.rewards@[i], months@[morder[i] as int], *ix, m.history@)
        });
    }
    m
}

/// The dashboard of an event log at reference time `now` with reporting
/// basis `basis` ("DAY", "WEEK", "MONTH" or "YEAR"; with any other string
/// every projection is 0). With no classified event the dashboard is the
/// all-default one.
pub fn calculate_metrics(listens: &Vec<Listen>, now: i64, basis: &str, ix: &CatalogIndex) -> (m: DashboardMetrics)
    requires
        ix.wf(),
        log_ok(listens@),
        listen_time(now as int),
    ensures
        classified_positions(listens@, *ix).len() == 0 ==> is_empty_dashboard(m),
        classified_positions(listens@, *ix).len() > 0 ==> exists|plays: Seq<Play>, chron: Seq<Play>|
            {
                &&& plays_of_log(plays, listens@, *ix)
                &&& chronological(chron, plays)
                &&& dashboard_of(m, chron, now as int, basis_of(basis@), *ix)
            },
        day_scrobbles(m.history@) == m.counts.total,
        m.counts.total == classified_positions(listens@, *ix).len(),
{
    let plays = chronological_plays(listens, ix);
    if plays.len() == 0 {
        let m = DashboardMetrics::empty();
        assert(m.history@.map_values(|d: DayStats| d.scrobbles as int) =~= Seq::<int>::empty());
        return m;
    }
    proof {
        crate::metrics::lemma_positions_bounded(listens@, *ix);
    }
    let m = metrics_from_plays(&plays, now, parse_basis(basis), ix);
    proof {
        let logged = choose|logged: Seq<Play>| plays_of_log(logged, listens@, *ix) && chronological(plays@, logged);
        assert(plays_of_log(logged, listens@, *ix) && chronological(plays@, logged) && dashboard_of(
            m,
            plays@,
            now as int,
            basis_of(basis@),
            *ix,
        ));
    }
    m
}

} // verus!
