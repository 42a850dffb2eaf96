//! Finalized statistics of listening days and calendar months: completion,
//! top albums and tracks, and rank badges.
use crate::calendar::{
    date_label, date_label_of, format_month, key_month, key_year, month_key, month_key_of, month_name_of,
    month_of_key, valid_timestamp, year_of_key, MAX_YEAR,
};
use crate::catalog::CatalogIndex;
use crate::period::{Bucket, PeriodWork};
use crate::ranking::{is_ranking, rank_top};
use vstd::prelude::*;

verus! {

/// A ratio of one, in parts per million.
pub const RATIO_ONE: u64 = 1_000_000;

/// Most album-equivalents of one period, in parts per million.
pub const ALBUMS_CAP: u128 = 1_000_000_000_000_000_000_000_000;

/// Entries of a listening day's top lists.
pub const TOP_DAY_ITEMS: usize = 5;

/// Entries of a month's top lists.
pub const TOP_MONTH_ITEMS: usize = 10;

/// A rank-derived label of a day or month.
#[derive(Clone, Copy, Debug, PartialEq, Eq, Structural)]
pub enum Badge {
    PeakSession,
    HighActivity,
    MilestoneMonth,
    TopPeriod,
}

pub open spec fn badge_label(b: Badge) -> Seq<char> {
    match b {
        Badge::PeakSession => "PEAK SESSION"@,
        Badge::HighActivity => "HIGH ACTIVITY"@,
        Badge::MilestoneMonth => "MILESTONE MONTH"@,
        Badge::TopPeriod => "TOP PERIOD"@,
    }
}

impl Badge {
    /// The label shown for the badge.
    pub fn label(&self) -> (r: &'static str)
        ensures
            r@ == badge_label(*self),
    {
        match self {
            Badge::PeakSession => "PEAK SESSION",
            Badge::HighActivity => "HIGH ACTIVITY",
            Badge::MilestoneMonth => "MILESTONE MONTH",
            Badge::TopPeriod => "TOP PERIOD",
        }
    }
}

/// Track count of the release group at position `g`, 0 for no group.
pub open spec fn track_count_of(ix: CatalogIndex, g: int) -> int {
    if 0 <= g < ix.groups@.len() {
        ix.groups@[g].track_count as int
    } else {
        0
    }
}

/// Title of the release group at position `g`, empty for no group.
pub open spec fn title_of(ix: CatalogIndex, g: int) -> Seq<char> {
    if 0 <= g < ix.groups@.len() {
        ix.groups@[g].title@
    } else {
        Seq::empty()
    }
}

/// `heard / total` in parts per million, rounded down; 0 when `total` is 0.
pub open spec fn ratio_ppm(heard: int, total: int) -> int {
    if total <= 0 {
        0
    } else {
        heard * 1_000_000 / total
    }
}

/// Completion of an album tally: distinct recordings heard over the release
/// group's track count.
pub open spec fn album_ratio(a: (int, int, int, Seq<Seq<char>>), ix: CatalogIndex) -> int {
    ratio_ppm(a.3.len() as int, track_count_of(ix, a.0))
}

/// Album-equivalents of a period: the sum of its albums' completions.
pub open spec fn completion_sum(t: Seq<(int, int, int, Seq<Seq<char>>)>, ix: CatalogIndex) -> int
    decreases t.len(),
{
    if t.len() == 0 {
        0
    } else {
        completion_sum(t.drop_last(), ix) + album_ratio(t.last(), ix)
    }
}

/// Ranking keys of album tallies: completion, then minutes.
pub open spec fn album_items(t: Seq<(int, int, int, Seq<Seq<char>>)>, ix: CatalogIndex) -> Seq<(u64, u64)> {
    t.map_values(|a: (int, int, int, Seq<Seq<char>>)| (album_ratio(a, ix) as u64, a.2 as u64))
}

/// Ranking keys of track tallies: plays, then minutes.
pub open spec fn track_items(t: Seq<(Seq<char>, int, int, int, int)>) -> Seq<(u64, u64)> {
    t.map_values(|x: (Seq<char>, int, int, int, int)| (x.1 as u64, x.2 as u64))
}

/// `out` lists the `n` best albums of the tallies `t` as (title, completion,
/// minutes), best first.
pub open spec fn ranked_albums(
    out: Seq<(String, u64, u64)>,
    t: Seq<(int, int, int, Seq<Seq<char>>)>,
    ix: CatalogIndex,
    n: int,
) -> bool {
    exists|r: Seq<usize>|
        {
            &&& is_ranking(album_items(t, ix), n, r)
            &&& out.len() == r.len()
            &&& forall|i: int|
                0 <= i < r.len() ==> {
                    &&& (#[trigger] out[i]).0@ == title_of(ix, t[r[i] as int].0)
                    &&& out[i].1 == album_ratio(t[r[i] as int], ix)
                    &&& out[i].2 == t[r[i] as int].2
                }
        }
}

/// `out` lists the `n` best tracks of the tallies `t` as (name, plays,
/// minutes), best first.
pub open spec fn ranked_tracks(out: Seq<(String, u64, u64)>, t: Seq<(Seq<char>, int, int, int, int)>, n: int) -> bool {
    exists|r: Seq<usize>|
        {
            &&& is_ranking(track_items(t), n, r)
            &&& out.len() == r.len()
            &&& forall|i: int|
                0 <= i < r.len() ==> {
                    &&& (#[trigger] out[i]).0@ == t[r[i] as int].0
                    &&& out[i].1 == t[r[i] as int].1
                    &&& out[i].2 == t[r[i] as int].2
                }
        }
}

/// Completion of one album tally, in parts per million.
fn album_completion(heard: usize, g: usize, ix: &CatalogIndex) -> (r: u64)
    requires
        heard <= 1_000_000_000,
    ensures
        r as int == ratio_ppm(heard as int, track_count_of(*ix, g as int)),
        r <= heard * 1_000_000,
{
    let total = if g < ix.groups.len() { ix.groups[g].track_count } else { 0 };
    if total == 0 {
        0
    } else {
        assert(heard * 1_000_000 / (total as int) <= heard * 1_000_000) by (nonlinear_arith)
            requires total >= 1, heard >= 0;
        (heard as u64 * 1_000_000) / total as u64
    }
}

/// Title of the release group at position `g`.
fn group_title(ix: &CatalogIndex, g: usize) -> (r: String)
    ensures
        r@ == title_of(*ix, g as int),
{
    if g < ix.groups.len() {
        ix.groups[g].title.clone()
    } else {
        String::new()
    }
}

/// Album-equivalents of a period, in parts per million.
pub fn completion(work: &PeriodWork, ix: &CatalogIndex) -> (r: u128)
    requires
        work.bounded(),
    ensures
        r as int == completion_sum(work.albums_view(), *ix),
        r <= ALBUMS_CAP,
{
    let ghost t = work.albums_view();
    let mut sum: u128 = 0;
    let mut i: usize = 0;
    while i < work.albums.len()
        invariant
            work.bounded(),
            t == work.albums_view(),
            i <= work.albums@.len(),
            sum as int == completion_sum(t.take(i as int), *ix),
            sum <= i * 1_000_000_000_000_000,
        decreases work.albums@.len() - i,
    {
        let a = &work.albums[i];
        assert(work.albums@[i as int].plays <= work.scrobbles);
        let c = album_completion(a.recordings.len(), a.group, ix);
        assert(t.take(i as int + 1).drop_last() == t.take(i as int));
        assert(t[i as int].3.len() == a.recordings@.len());
        sum = sum + c as u128;
        i = i + 1;
    }
    assert(t.take(i as int) == t);
    assert(sum <= ALBUMS_CAP) by (nonlinear_arith)
        requires sum <= i * 1_000_000_000_000_000, i <= 1_000_000_000;
    sum
}

/// The `n` best albums of a period as (title, completion, minutes).
pub fn top_albums(work: &PeriodWork, ix: &CatalogIndex, n: usize) -> (r: Vec<(String, u64, u64)>)
    requires
        work.bounded(),
    ensures
        ranked_albums(r@, work.albums_view(), *ix, n as int),
{
    let ghost t = work.albums_view();
    let mut items: Vec<(u64, u64)> = Vec::new();
    let mut i: usize = 0;
    while i < work.albums.len()
        invariant
            work.bounded(),
            t == work.albums_view(),
            i <= work.albums@.len(),
            items@ == album_items(t, *ix).take(i as int),
        decreases work.albums@.len() - i,
    {
        let a = &work.albums[i];
        assert(work.albums@[i as int].plays <= work.scrobbles);
        let c = album_completion(a.recordings.len(), a.group, ix);
        assert(t[i as int].3.len() == a.recordings@.len());
        items.push((c, a.minutes));
        assert(items@ =~= album_items(t, *ix).take(i as int + 1));
        i = i + 1;
    }
    assert(items@ =~= album_items(t, *ix));
    let order = rank_top(&items, n);
    let mut out: Vec<(String, u64, u64)> = Vec::new();
    let mut j: usize = 0;
    while j < order.len()
        invariant
            work.bounded(),
            t == work.albums_view(),
            items@ == album_items(t, *ix),
            is_ranking(items@, n as int, order@),
            j <= order@.len(),
            out@.len() == j,
            forall|k: int|
                0 <= k < j ==> {
                    &&& (#[trigger] out@[k]).0@ == title_of(*ix, t[order@[k] as int].0)
                    &&& out@[k].1 == album_ratio(t[order@[k] as int], *ix)
                    &&& out@[k].2 == t[order@[k] as int].2
                },
        decreases order@.len() - j,
    {
        let p = order[j];
        assert(crate::ranking::is_next(items@, order@.take(j as int), order@[j as int] as int));
        let a = &work.albums[p];
        out.push((group_title(ix, a.group), items[p].0, a.minutes));
        j = j + 1;
    }
    out
}

/// The `n` best tracks of a period as (name, plays, minutes).
pub fn top_tracks(work: &PeriodWork, n: usize) -> (r: Vec<(String, u64, u64)>)
    requires
        work.bounded(),
    ensures
        ranked_tracks(r@, work.tracks_view(), n as int),
{
    let ghost t = work.tracks_view();
    let mut items: Vec<(u64, u64)> = Vec::new();
    let mut i: usize = 0;
    while i < work.tracks.len()
        invariant
            work.bounded(),
            t == work.tracks_view(),
            i <= work.tracks@.len(),
            items@ == track_items(t).take(i as int),
        decreases work.tracks@.len() - i,
    {
        let x = &work.tracks[i];
        items.push((x.plays, x.minutes));
        assert(items@ =~= track_items(t).take(i as int + 1));
        i = i + 1;
    }
    assert(items@ =~= track_items(t));
    let order = rank_top(&items, n);
    let mut out: Vec<(String, u64, u64)> = Vec::new();
    let mut j: usize = 0;
    while j < order.len()
        invariant
            work.bounded(),
            t == work.tracks_view(),
            items@ == track_items(t),
            is_ranking(items@, n as int, order@),
            j <= order@.len(),
            out@.len() == j,
            forall|k: int|
                0 <= k < j ==> {
                    &&& (#[trigger] out@[k]).0@ == t[order@[k] as int].0
                    &&& out@[k].1 == t[order@[k] as int].1
                    &&& out@[k].2 == t[order@[k] as int].2
                },
        decreases order@.len() - j,
    {
        let p = order[j];
        assert(crate::ranking::is_next(items@, order@.take(j as int), order@[j as int] as int));
        let x = &work.tracks[p];
        out.push((x.name.clone(), x.plays, x.minutes));
        j = j + 1;
    }
    out
}

} // verus!

verus! {

/// Statistics of one listening day.
pub struct DayStats {
    pub date_label: String,
    /// Start of the listening day.
    pub timestamp: i64,
    /// Album-equivalents, in parts per million.
    pub albums_completed: u128,
    pub minutes: u64,
    pub scrobbles: u64,
    pub favorite_album: String,
    /// (title, completion in parts per million, minutes), best first.
    pub top_albums: Vec<(String, u64, u64)>,
    /// (name, plays, minutes), best first.
    pub top_tracks: Vec<(String, u64, u64)>,
    pub badge: Option<Badge>,
}

/// The head of a ranked list's names, or the empty string.
pub open spec fn first_name(l: Seq<(String, u64, u64)>) -> Seq<char> {
    if l.len() > 0 {
        l[0].0@
    } else {
        Seq::empty()
    }
}

/// `d` gives the statistics of the period in bucket `b` (its badge aside).
pub open spec fn describes_day(d: DayStats, b: Bucket, ix: CatalogIndex) -> bool {
    &&& d.timestamp == b.key
    &&& d.date_label@ == date_label_of(b.key as int)
    &&& d.scrobbles == b.work.scrobbles
    &&& d.minutes == b.work.ms / 60_000
    &&& d.albums_completed == completion_sum(b.work.albums_view(), ix)
    &&& ranked_albums(d.top_albums@, b.work.albums_view(), ix, TOP_DAY_ITEMS as int)
    &&& ranked_tracks(d.top_tracks@, b.work.tracks_view(), TOP_DAY_ITEMS as int)
    &&& d.favorite_album@ == first_name(d.top_albums@)
}

pub fn first_of(l: &Vec<(String, u64, u64)>) -> (r: String)
    ensures
        r@ == first_name(l@),
{
    if l.len() > 0 {
        l[0].0.clone()
    } else {
        String::new()
    }
}

/// The statistics of the listening day in bucket `b`, without a badge.
pub fn day_stats(b: &Bucket, ix: &CatalogIndex) -> (d: DayStats)
    requires
        b.work.bounded(),
        valid_timestamp(b.key as int),
    ensures
        describes_day(d, *b, *ix),
        d.badge.is_none(),
        d.albums_completed <= ALBUMS_CAP,
{
    let top_albums = top_albums(&b.work, ix, TOP_DAY_ITEMS);
    let favorite_album = first_of(&top_albums);
    DayStats {
        date_label: date_label(b.key),
        timestamp: b.key,
        albums_completed: completion(&b.work, ix),
        minutes: b.work.ms / 60_000,
        scrobbles: b.work.scrobbles,
        favorite_album,
        top_albums,
        top_tracks: top_tracks(&b.work, TOP_DAY_ITEMS),
        badge: None,
    }
}

/// Ranking keys that put the latest period first.
pub open spec fn recency_items(buckets: Seq<Bucket>) -> Seq<(u64, u64)> {
    buckets.map_values(|b: Bucket| ((b.key - KEY_FLOOR) as u64, 0u64))
}

/// Below every period key.
pub const KEY_FLOOR: i64 = -8_000_000_000_000;

/// Ranking keys of days by minutes.
pub open spec fn minute_items(days: Seq<DayStats>) -> Seq<(u64, u64)> {
    days.map_values(|d: DayStats| (d.minutes, 0u64))
}

/// The badge that the two-place ranking `r` gives to position `i`.
pub open spec fn badge_at(r: Seq<usize>, i: int, first: Badge, second: Badge) -> Option<Badge> {
    if r.len() > 0 && r[0] == i {
        Some(first)
    } else if r.len() > 1 && r[1] == i {
        Some(second)
    } else {
        None
    }
}

/// The days of the buckets, latest first, with the day of most minutes
/// marked "PEAK SESSION" and the runner-up "HIGH ACTIVITY" (ties: the later
/// day ranks first).
pub fn build_history(buckets: &Vec<Bucket>, ix: &CatalogIndex) -> (h: Vec<DayStats>)
    requires
        forall|b: int|
            0 <= b < buckets@.len() ==> {
                &&& (#[trigger] buckets@[b]).work.bounded()
                &&& valid_timestamp(buckets@[b].key as int)
            },
    ensures
        exists|order: Seq<usize>|
            {
                &&& is_ranking(recency_items(buckets@), buckets@.len() as int, order)
                &&& h@.len() == order.len()
                &&& forall|i: int| 0 <= i < h@.len() ==> describes_day(#[trigger] h@[i], buckets@[order[i] as int], *ix)
            },
        forall|i: int| 0 <= i < h@.len() ==> (#[trigger] h@[i]).albums_completed <= ALBUMS_CAP,
        exists|r: Seq<usize>|
            {
                &&& is_ranking(minute_items(h@), 2, r)
                &&& forall|i: int|
                    0 <= i < h@.len() ==> (#[trigger] h@[i]).badge == badge_at(r, i, Badge::PeakSession, Badge::HighActivity)
            },
{
    let mut items: Vec<(u64, u64)> = Vec::new();
    let mut i: usize = 0;
    while i < buckets.len()
        invariant
            i <= buckets@.len(),
            items@ == recency_items(buckets@).take(i as int),
            forall|b: int|
                0 <= b < buckets@.len() ==> {
                    &&& (#[trigger] buckets@[b]).work.bounded()
                    &&& valid_timestamp(buckets@[b].key as int)
                },
        decreases buckets@.len() - i,
    {
        assert(valid_timestamp(buckets@[i as int].key as int));
        items.push(((buckets[i].key - KEY_FLOOR) as u64, 0));
        assert(items@ =~= recency_items(buckets@).take(i as int + 1));
        i = i + 1;
    }
    assert(items@ =~= recency_items(buckets@));
    let order = rank_top(&items, buckets.len());
    let mut h: Vec<DayStats> = Vec::new();
    let mut j: usize = 0;
    while j < order.len()
        invariant
            items@ == recency_items(buckets@),
            is_ranking(items@, buckets@.len() as int, order@),
            forall|b: int|
                0 <= b < buckets@.len() ==> {
                    &&& (#[trigger] buckets@[b]).work.bounded()
                    &&& valid_timestamp(buckets@[b].key as int)
                },
            j <= order@.len(),
            h@.len() == j,
            forall|k: int| 0 <= k < j ==> describes_day(#[trigger] h@[k], buckets@[order@[k] as int], *ix),
            forall|k: int| 0 <= k < j ==> (#[trigger] h@[k]).badge.is_none(),
            forall|k: int| 0 <= k < j ==> (#[trigger] h@[k]).albums_completed <= ALBUMS_CAP,
        decreases order@.len() - j,
    {
        assert(crate::ranking::is_next(items@, order@.take(j as int), order@[j as int] as int));
        let d = day_stats(&buckets[order[j]], ix);
        h.push(d);
        j = j + 1;
    }
    let mut mins: Vec<(u64, u64)> = Vec::new();
    let mut k: usize = 0;
    while k < h.len()
        invariant
            k <= h@.len(),
            mins@ == minute_items(h@).take(k as int),
        decreases h@.len() - k,
    {
        mins.push((h[k].minutes, 0));
        assert(mins@ =~= minute_items(h@).take(k as int + 1));
        k = k + 1;
    }
    assert(mins@ =~= minute_items(h@));
    let top = rank_top(&mins, 2);
    let ghost h0 = h@;
    if top.len() > 0 {
        let mut d = h.remove(top[0]);
        d.badge = Some(Badge::PeakSession);
        h.insert(top[0], d);
    }
    if top.len() > 1 {
        let mut d = h.remove(top[1]);
        d.badge = Some(Badge::HighActivity);
        h.insert(top[1], d);
    }
    proof {
        assert(minute_items(h@) =~= minute_items(h0));
        if top@.len() > 1 {
            assert(crate::ranking::is_next(mins@, top@.take(1), top@[1] as int));
            assert(top@.take(1)[0] == top@[0]);
            assert(top@.take(1).contains(top@[0]));
        }
        assert forall|i: int| 0 <= i < h@.len() implies describes_day(#[trigger] h@[i], buckets@[order@[i] as int], *ix)
            && h@[i].badge == badge_at(top@, i, Badge::PeakSession, Badge::HighActivity) by {
            assert(describes_day(h0[i], buckets@[order@[i] as int], *ix));
        }
        assert forall|i: int| 0 <= i < h@.len() implies (#[trigger] h@[i]).albums_completed <= ALBUMS_CAP by {
            assert(h0[i].albums_completed <= ALBUMS_CAP);
        }
    }
    h
}

} // verus!

verus! {

/// Statistics of one calendar month.
pub struct MonthlyWrapped {
    pub year: i32,
    pub month: u32,
    pub month_name: String,
    pub total_scrobbles: u64,
    pub total_minutes: u64,
    pub top_album: String,
    pub top_track: String,
    pub top_albums: Vec<(String, u64, u64)>,
    pub top_tracks: Vec<(String, u64, u64)>,
    /// The month's days, latest first.
    pub days: Vec<DayStats>,
    pub badge: Option<Badge>,
}

pub open spec fn list_view(l: Seq<(String, u64, u64)>) -> Seq<(Seq<char>, u64, u64)> {
    l.map_values(|x: (String, u64, u64)| (x.0@, x.1, x.2))
}

/// `a` and `b` hold the same statistics.
pub open spec fn same_day(a: DayStats, b: DayStats) -> bool {
    &&& a.date_label@ == b.date_label@
    &&& a.timestamp == b.timestamp
    &&& a.albums_completed == b.albums_completed
    &&& a.minutes == b.minutes
    &&& a.scrobbles == b.scrobbles
    &&& a.favorite_album@ == b.favorite_album@
    &&& list_view(a.top_albums@) == list_view(b.top_albums@)
    &&& list_view(a.top_tracks@) == list_view(b.top_tracks@)
    &&& a.badge == b.badge
}

/// The days of `h` that start in the calendar month with key `k`, in order.
pub open spec fn days_in_month(h: Seq<DayStats>, k: int) -> Seq<DayStats>
    decreases h.len(),
{
    if h.len() == 0 {
        h
    } else if month_key_of(h.last().timestamp as int) == k {
        days_in_month(h.drop_last(), k).push(h.last())
    } else {
        days_in_month(h.drop_last(), k)
    }
}

/// `m` gives the statistics of the month in bucket `b`, whose days are
/// those of `history` (its badge aside).
pub open spec fn describes_month(m: MonthlyWrapped, b: Bucket, ix: CatalogIndex, history: Seq<DayStats>) -> bool {
    &&& m.year == year_of_key(b.key as int)
    &&& m.month == month_of_key(b.key as int)
    &&& m.month_name@ == month_name_of(m.month as int)
    &&& m.total_scrobbles == b.work.scrobbles
    &&& m.total_minutes == b.work.ms / 60_000
    &&& ranked_albums(m.top_albums@, b.work.albums_view(), ix, TOP_MONTH_ITEMS as int)
    &&& ranked_tracks(m.top_tracks@, b.work.tracks_view(), TOP_MONTH_ITEMS as int)
    &&& m.top_album@ == first_name(m.top_albums@)
    &&& m.top_track@ == first_name(m.top_tracks@)
    &&& m.days@.len() == days_in_month(history, b.key as int).len()
    &&& forall|i: int| 0 <= i < m.days@.len() ==> same_day(#[trigger] m.days@[i], days_in_month(history, b.key as int)[i])
}

pub fn copy_list(l: &Vec<(String, u64, u64)>) -> (r: Vec<(String, u64, u64)>)
    ensures
        list_view(r@) == list_view(l@),
{
    let mut r: Vec<(String, u64, u64)> = Vec::new();
    let mut i: usize = 0;
    while i < l.len()
        invariant
            i <= l@.len(),
            list_view(r@) == list_view(l@).take(i as int),
        decreases l@.len() - i,
    {
        let name = l[i].0.clone();
        assert(name@ == l@[i as int].0@);
        let ghost r0 = r@;
        r.push((name, l[i].1, l[i].2));
        assert(r@ == r0.push((name, l@[i as int].1, l@[i as int].2)));
        assert(list_view(r@) =~= list_view(r0).push((l@[i as int].0@, l@[i as int].1, l@[i as int].2)));
        assert(list_view(r@) =~= list_view(l@).take(i as int + 1));
        i = i + 1;
    }
    assert(list_view(l@).take(i as int) =~= list_view(l@));
    r
}

pub fn copy_day(d: &DayStats) -> (r: DayStats)
    ensures
        same_day(r, *d),
{
    DayStats {
        date_label: d.date_label.clone(),
        timestamp: d.timestamp,
        albums_completed: d.albums_completed,
        minutes: d.minutes,
        scrobbles: d.scrobbles,
        favorite_album: d.favorite_album.clone(),
        top_albums: copy_list(&d.top_albums),
        top_tracks: copy_list(&d.top_tracks),
        badge: d.badge,
    }
}

/// Copies of the days of `history` that start in the month with key `k`.
pub fn month_days(history: &Vec<DayStats>, k: i64) -> (r: Vec<DayStats>)
    requires
        forall|i: int| 0 <= i < history@.len() ==> valid_timestamp((#[trigger] history@[i]).timestamp as int),
    ensures
        r@.len() == days_in_month(history@, k as int).len(),
        forall|i: int| 0 <= i < r@.len() ==> same_day(#[trigger] r@[i], days_in_month(history@, k as int)[i]),
{
    let mut r: Vec<DayStats> = Vec::new();
    let mut i: usize = 0;
    while i < history.len()
        invariant
            i <= history@.len(),
            forall|j: int| 0 <= j < history@.len() ==> valid_timestamp((#[trigger] history@[j]).timestamp as int),
            r@.len() == days_in_month(history@.take(i as int), k as int).len(),
            forall|j: int| 0 <= j < r@.len() ==> same_day(#[trigger] r@[j], days_in_month(history@.take(i as int), k as int)[j]),
        decreases history@.len() - i,
    {
        let ghost pre = history@.take(i as int);
        let ghost post = history@.take(i as int + 1);
        assert(post.drop_last() == pre && post.last() == history@[i as int]);
        assert(valid_timestamp(history@[i as int].timestamp as int));
        if month_key(history[i].timestamp) == k {
            let d = copy_day(&history[i]);
            r.push(d);
        }
        i = i + 1;
    }
    assert(history@.take(i as int) == history@);
    r
}

/// The statistics of the month in bucket `b`, without a badge.
pub fn month_stats(b: &Bucket, ix: &CatalogIndex, history: &Vec<DayStats>) -> (m: MonthlyWrapped)
    requires
        b.work.bounded(),
        0 <= b.key,
        year_of_key(b.key as int) <= MAX_YEAR,
        forall|i: int| 0 <= i < history@.len() ==> valid_timestamp((#[trigger] history@[i]).timestamp as int),
    ensures
        describes_month(m, *b, *ix, history@),
        m.badge.is_none(),
{
    let month = key_month(b.key);
    let top_albums = top_albums(&b.work, ix, TOP_MONTH_ITEMS);
    let top_tracks = top_tracks(&b.work, TOP_MONTH_ITEMS);
    let top_album = first_of(&top_albums);
    let top_track = first_of(&top_tracks);
    MonthlyWrapped {
        year: key_year(b.key),
        month,
        month_name: format_month(month).to_string(),
        total_scrobbles: b.work.scrobbles,
        total_minutes: b.work.ms / 60_000,
        top_album,
        top_track,
        top_albums,
        top_tracks,
        days: month_days(history, b.key),
        badge: None,
    }
}

/// Ranking keys of months by minutes.
pub open spec fn month_minute_items(months: Seq<MonthlyWrapped>) -> Seq<(u64, u64)> {
    months.map_values(|m: MonthlyWrapped| (m.total_minutes, 0u64))
}

/// Ranking keys that put the latest month first.
pub open spec fn month_recency_items(buckets: Seq<Bucket>) -> Seq<(u64, u64)> {
    buckets.map_values(|b: Bucket| (b.key as u64, 0u64))
}

/// The months of the buckets, latest first, with the month of most minutes
/// marked "MILESTONE MONTH" and the runner-up "TOP PERIOD" (ties: the later
/// month ranks first).
pub fn build_months(buckets: &Vec<Bucket>, ix: &CatalogIndex, history: &Vec<DayStats>) -> (ms: Vec<MonthlyWrapped>)
    requires
        forall|b: int|
            0 <= b < buckets@.len() ==> {
                &&& (#[trigger] buckets@[b]).work.bounded()
                &&& 0 <= buckets@[b].key
                &&& year_of_key(buckets@[b].key as int) <= MAX_YEAR
            },
        forall|i: int| 0 <= i < history@.len() ==> valid_timestamp((#[trigger] history@[i]).timestamp as int),
    ensures
        exists|order: Seq<usize>|
            {
                &&& is_ranking(month_recency_items(buckets@), buckets@.len() as int, order)
                &&& ms@.len() == order.len()
                &&& forall|i: int|
                    0 <= i < ms@.len() ==> describes_month(#[trigger] ms@[i], buckets@[order[i] as int], *ix, history@)
            },
        exists|r: Seq<usize>|
            {
                &&& is_ranking(month_minute_items(ms@), 2, r)
                &&& forall|i: int|
                    0 <= i < ms@.len() ==> (#[trigger] ms@[i]).badge == badge_at(r, i, Badge::MilestoneMonth, Badge::TopPeriod)
            },
{
    let mut items: Vec<(u64, u64)> = Vec::new();
    let mut i: usize = 0;
    while i < buckets.len()
        invariant
            i <= buckets@.len(),
            items@ == month_recency_items(buckets@).take(i as int),
            forall|b: int|
                0 <= b < buckets@.len() ==> {
                    &&& (#[trigger] buckets@[b]).work.bounded()
                    &&& 0 <= buckets@[b].key
                    &&& year_of_key(buckets@[b].key as int) <= MAX_YEAR
                },
        decreases buckets@.len() - i,
    {
        assert(0 <= buckets@[i as int].key);
        items.push((buckets[i].key as u64, 0));
        assert(items@ =~= month_recency_items(buckets@).take(i as int + 1));
        i = i + 1;
    }
    assert(items@ =~= month_recency_items(buckets@));
    let order = rank_top(&items, buckets.len());
    let mut ms: Vec<MonthlyWrapped> = Vec::new();
    let mut j: usize = 0;
    while j < order.len()
        invariant
            items@ == month_recency_items(buckets@),
            is_ranking(items@, buckets@.len() as int, order@),
            forall|b: int|
                0 <= b < buckets@.len() ==> {
                    &&& (#[trigger] buckets@[b]).work.bounded()
                    &&& 0 <= buckets@[b].key
                    &&& year_of_key(buckets@[b].key as int) <= MAX_YEAR
                },
            forall|i: int| 0 <= i < history@.len() ==> valid_timestamp((#[trigger] history@[i]).timestamp as int),
            j <= order@.len(),
            ms@.len() == j,
            forall|k: int| 0 <= k < j ==> describes_month(#[trigger] ms@[k], buckets@[order@[k] as int], *ix, history@),
            forall|k: int| 0 <= k < j ==> (#[trigger] ms@[k]).badge.is_none(),
        decreases order@.len() - j,
    {
        assert(crate::ranking::is_next(items@, order@.take(j as int), order@[j as int] as int));
        let m = month_stats(&buckets[order[j]], ix, history);
        ms.push(m);
        j = j + 1;
    }
    let mut mins: Vec<(u64, u64)> = Vec::new();
    let mut k: usize = 0;
    while k < ms.len()
        invariant
            k <= ms@.len(),
            mins@ == month_minute_items(ms@).take(k as int),
        decreases ms@.len() - k,
    {
        mins.push((ms[k].total_minutes, 0));
        assert(mins@ =~= month_minute_items(ms@).take(k as int + 1));
        k = k + 1;
    }
    assert(mins@ =~= month_minute_items(ms@));
    let top = rank_top(&mins, 2);
    let ghost m0 = ms@;
    if top.len() > 0 {
        let mut m = ms.remove(top[0]);
        m.badge = Some(Badge::MilestoneMonth);
        ms.insert(top[0], m);
    }
    if top.len() > 1 {
        let mut m = ms.remove(top[1]);
        m.badge = Some(Badge::TopPeriod);
        ms.insert(top[1], m);
    }
    proof {
        assert(month_minute_items(ms@) =~= month_minute_items(m0));
        if top@.len() > 1 {
            assert(crate::ranking::is_next(mins@, top@.take(1), top@[1] as int));
            assert(top@.take(1)[0] == top@[0]);
            assert(top@.take(1).contains(top@[0]));
        }
        assert forall|i: int| 0 <= i < ms@.len() implies describes_month(#[trigger] ms@[i], buckets@[order@[i] as int], *ix, history@)
            && ms@[i].badge == badge_at(top@, i, Badge::MilestoneMonth, Badge::TopPeriod) by {
            assert(describes_month(m0[i], buckets@[order@[i] as int], *ix, history@));
        }
    }
    ms
}

} // verus!

verus! {

/// The badges of `h` follow the ranking of its days by minutes.
pub open spec fn day_badges_ranked(h: Seq<DayStats>) -> bool {
    exists|r: Seq<usize>|
        {
            &&& is_ranking(minute_items(h), 2, r)
            &&& forall|i: int| 0 <= i < h.len() ==> (#[trigger] h[i]).badge == badge_at(r, i, Badge::PeakSession, Badge::HighActivity)
        }
}

/// The badges of `ms` follow the ranking of its months by minutes.
pub open spec fn month_badges_ranked(ms: Seq<MonthlyWrapped>) -> bool {
    exists|r: Seq<usize>|
        {
            &&& is_ranking(month_minute_items(ms), 2, r)
            &&& forall|i: int| 0 <= i < ms.len() ==> (#[trigger] ms[i]).badge == badge_at(r, i, Badge::MilestoneMonth, Badge::TopPeriod)
        }
}

/// Badge placement is deterministic: two histories whose days have the same
/// minutes carry the same badges on the same days.
pub proof fn day_badges_deterministic(h1: Seq<DayStats>, h2: Seq<DayStats>)
    requires
        day_badges_ranked(h1),
        day_badges_ranked(h2),
        h1.len() == h2.len(),
        forall|i: int| 0 <= i < h1.len() ==> (#[trigger] h1[i]).minutes == h2[i].minutes,
    ensures
        forall|i: int| 0 <= i < h1.len() ==> (#[trigger] h1[i]).badge == h2[i].badge,
{
    let r1 = choose|r: Seq<usize>|
        {
            &&& is_ranking(minute_items(h1), 2, r)
            &&& forall|i: int| 0 <= i < h1.len() ==> (#[trigger] h1[i]).badge == badge_at(r, i, Badge::PeakSession, Badge::HighActivity)
        };
    let r2 = choose|r: Seq<usize>|
        {
            &&& is_ranking(minute_items(h2), 2, r)
            &&& forall|i: int| 0 <= i < h2.len() ==> (#[trigger] h2[i]).badge == badge_at(r, i, Badge::PeakSession, Badge::HighActivity)
        };
    assert(minute_items(h1) =~= minute_items(h2));
    crate::ranking::lemma_ranking_unique(minute_items(h1), 2, r1, r2);
}

/// Month badges are deterministic in the same way.
pub proof fn month_badges_deterministic(m1: Seq<MonthlyWrapped>, m2: Seq<MonthlyWrapped>)
    requires
        month_badges_ranked(m1),
        month_badges_ranked(m2),
        m1.len() == m2.len(),
        forall|i: int| 0 <= i < m1.len() ==> (#[trigger] m1[i]).total_minutes == m2[i].total_minutes,
    ensures
        forall|i: int| 0 <= i < m1.len() ==> (#[trigger] m1[i]).badge == m2[i].badge,
{
    let r1 = choose|r: Seq<usize>|
        {
            &&& is_ranking(month_minute_items(m1), 2, r)
            &&& forall|i: int| 0 <= i < m1.len() ==> (#[trigger] m1[i]).badge == badge_at(r, i, Badge::MilestoneMonth, Badge::TopPeriod)
        };
    let r2 = choose|r: Seq<usize>|
        {
            &&& is_ranking(month_minute_items(m2), 2, r)
            &&& forall|i: int| 0 <= i < m2.len() ==> (#[trigger] m2[i]).badge == badge_at(r, i, Badge::MilestoneMonth, Badge::TopPeriod)
        };
    assert(month_minute_items(m1) =~= month_minute_items(m2));
    crate::ranking::lemma_ranking_unique(month_minute_items(m1), 2, r1, r2);
}

/// A non-empty history has exactly one "PEAK SESSION" day, and one with at
/// least two days has exactly one "HIGH ACTIVITY" day.
pub proof fn one_peak_session(h: Seq<DayStats>)
    requires
        day_badges_ranked(h),
        h.len() >= 1,
    ensures
        exists|i: int|
            0 <= i < h.len() && h[i].badge == Some(Badge::PeakSession) && forall|j: int|
                0 <= j < h.len() && j != i ==> (#[trigger] h[j]).badge != Some(Badge::PeakSession),
        h.len() >= 2 ==> exists|i: int|
            0 <= i < h.len() && h[i].badge == Some(Badge::HighActivity) && forall|j: int|
                0 <= j < h.len() && j != i ==> (#[trigger] h[j]).badge != Some(Badge::HighActivity),
{
    let r = choose|r: Seq<usize>|
        {
            &&& is_ranking(minute_items(h), 2, r)
            &&& forall|i: int| 0 <= i < h.len() ==> (#[trigger] h[i]).badge == badge_at(r, i, Badge::PeakSession, Badge::HighActivity)
        };
    assert(crate::ranking::is_next(minute_items(h), r.take(0), r[0] as int));
    assert(h[r[0] as int].badge == Some(Badge::PeakSession));
    if h.len() >= 2 {
        assert(crate::ranking::is_next(minute_items(h), r.take(1), r[1] as int));
        assert(r.take(1)[0] == r[0]);
        assert(h[r[1] as int].badge == Some(Badge::HighActivity));
    }
}

/// A non-empty month list has exactly one "MILESTONE MONTH", and one with at
/// least two months has exactly one "TOP PERIOD".
pub proof fn one_milestone_month(ms: Seq<MonthlyWrapped>)
    requires
        month_badges_ranked(ms),
        ms.len() >= 1,
    ensures
        exists|i: int|
            0 <= i < ms.len() && ms[i].badge == Some(Badge::MilestoneMonth) && forall|j: int|
                0 <= j < ms.len() && j != i ==> (#[trigger] ms[j]).badge != Some(Badge::MilestoneMonth),
        ms.len() >= 2 ==> exists|i: int|
            0 <= i < ms.len() && ms[i].badge == Some(Badge::TopPeriod) && forall|j: int|
                0 <= j < ms.len() && j != i ==> (#[trigger] ms[j]).badge != Some(Badge::TopPeriod),
{
    let r = choose|r: Seq<usize>|
        {
            &&& is_ranking(month_minute_items(ms), 2, r)
            &&& forall|i: int| 0 <= i < ms.len() ==> (#[trigger] ms[i]).badge == badge_at(r, i, Badge::MilestoneMonth, Badge::TopPeriod)
        };
    assert(crate::ranking::is_next(month_minute_items(ms), r.take(0), r[0] as int));
    assert(ms[r[0] as int].badge == Some(Badge::MilestoneMonth));
    if ms.len() >= 2 {
        assert(crate::ranking::is_next(month_minute_items(ms), r.take(1), r[1] as int));
        assert(r.take(1)[0] == r[0]);
        assert(ms[r[1] as int].badge == Some(Badge::TopPeriod));
    }
}

} // verus!
