//! Chart series of the dashboard.
use crate::calendar::{listen_time, MAX_LISTEN_TS, MAX_YEAR, SECONDS_PER_DAY};
use crate::catalog::{clone_opt, CatalogIndex};
use crate::metrics::{play_valid, SECONDS_PER_MONTH};
use crate::period::{PeriodWork, Play, MAX_PLAYS};
use crate::ranking::{is_next, is_ranking, lemma_ranking_ordered, lemma_ranking_permutes, rank_top};
use crate::stats::{album_ratio, title_of, RATIO_ONE};
use vstd::prelude::*;

verus! {

/// Points kept of the discovery timeline.
pub const TIMELINE_POINTS: usize = 20;

/// Entries kept of each top-ten chart.
pub const CHART_ITEMS: usize = 10;

/// Idle days after which a track counts as forgotten.
pub const FORGOTTEN_DAYS: u64 = 30;

/// Plays a forgotten track needs more than.
pub const FORGOTTEN_MIN_PLAYS: u64 = 2;

/// Whether recording `r` is played in `s`.
pub open spec fn heard(s: Seq<Play>, r: Seq<char>) -> bool {
    exists|i: int| 0 <= i < s.len() && s[i].recording@ == r
}

/// Earliest time at which recording `r` is played in `s` (`i64::MAX` if never).
pub open spec fn first_seen(s: Seq<Play>, r: Seq<char>) -> int
    decreases s.len(),
{
    if s.len() == 0 {
        i64::MAX as int
    } else {
        let e = first_seen(s.drop_last(), r);
        if s.last().recording@ == r && (s.last().ts as int) < e {
            s.last().ts as int
        } else {
            e
        }
    }
}

/// `d` lists each recording of `s` once, with the time it was first played.
pub open spec fn discovery_table(d: Seq<(String, i64)>, s: Seq<Play>) -> bool {
    &&& forall|i: int| 0 <= i < d.len() ==> heard(s, (#[trigger] d[i]).0@) && d[i].1 == first_seen(s, d[i].0@)
    &&& forall|i: int, j: int| 0 <= i < d.len() && 0 <= j < d.len() && i != j ==> d[i].0@ != d[j].0@
    &&& forall|r: Seq<char>| heard(s, r) ==> exists|i: int| 0 <= i < d.len() && (#[trigger] d[i]).0@ == r
}

/// Each recording of the plays with the time it was first played, in order
/// of first appearance.
pub fn discoveries(plays: &Vec<Play>) -> (d: Vec<(String, i64)>)
    ensures
        discovery_table(d@, plays@),
{
    let mut d: Vec<(String, i64)> = Vec::new();
    let mut i: usize = 0;
    while i < plays.len()
        invariant
            i <= plays@.len(),
            discovery_table(d@, plays@.take(i as int)),
        decreases plays@.len() - i,
    {
        let ghost pre = plays@.take(i as int);
        let ghost post = plays@.take(i as int + 1);
        let p = &plays[i];
        assert(post.drop_last() == pre && post.last() == *p);
        let ghost d0 = d@;
        let mut j: usize = 0;
        while j < d.len() && d[j].0 != p.recording
            invariant
                j <= d@.len(),
                forall|k: int| 0 <= k < j ==> d@[k].0@ != p.recording@,
            decreases d@.len() - j,
        {
            j = j + 1;
        }
        assert forall|r: Seq<char>| heard(pre, r) || r == p.recording@ implies heard(post, r) by {
            if heard(pre, r) {
                let k = choose|k: int| 0 <= k < pre.len() && pre[k].recording@ == r;
                assert(post[k] == pre[k]);
            }
            if r == p.recording@ {
                assert(post[i as int] == *p);
            }
        }
        assert forall|r: Seq<char>| heard(post, r) implies heard(pre, r) || r == p.recording@ by {
            let k = choose|k: int| 0 <= k < post.len() && post[k].recording@ == r;
            if k < pre.len() {
                assert(pre[k] == post[k]);
            }
        }
        if j < d.len() {
            if p.ts < d[j].1 {
                let name = d[j].0.clone();
                d.set(j, (name, p.ts));
            }
            assert forall|k: int| 0 <= k < d@.len() implies heard(post, (#[trigger] d@[k]).0@) && d@[k].1 == first_seen(post, d@[k].0@) by {
                assert(heard(pre, d0[k].0@));
            }
            assert forall|r: Seq<char>| heard(post, r) implies exists|k: int| 0 <= k < d@.len() && (#[trigger] d@[k]).0@ == r by {
                if r == p.recording@ {
                    assert(d@[j as int].0@ == r);
                } else {
                    let k = choose|k: int| 0 <= k < d0.len() && (#[trigger] d0[k]).0@ == r;
                    assert(d@[k].0@ == r);
                }
            }
        } else {
            assert(!heard(pre, p.recording@)) by {
                if heard(pre, p.recording@) {
                    let k = choose|k: int| 0 <= k < d0.len() && (#[trigger] d0[k]).0@ == p.recording@;
                }
            }
            assert(first_seen(pre, p.recording@) == i64::MAX) by {
                lemma_first_seen_unheard(pre, p.recording@);
            }
            d.push((p.recording.clone(), p.ts));
            assert forall|k: int| 0 <= k < d@.len() implies heard(post, (#[trigger] d@[k]).0@) && d@[k].1 == first_seen(post, d@[k].0@) by {
                if k < d0.len() {
                    assert(d@[k] == d0[k]);
                    assert(heard(pre, d0[k].0@));
                }
            }
            assert forall|r: Seq<char>| heard(post, r) implies exists|k: int| 0 <= k < d@.len() && (#[trigger] d@[k]).0@ == r by {
                if r == p.recording@ {
                    assert(d@[d0.len() as int].0@ == r);
                } else {
                    let k = choose|k: int| 0 <= k < d0.len() && (#[trigger] d0[k]).0@ == r;
                    assert(d@[k] == d0[k]);
                }
            }
        }
        i = i + 1;
    }
    assert(plays@.take(i as int) == plays@);
    d
}

proof fn lemma_first_seen_unheard(s: Seq<Play>, r: Seq<char>)
    requires
        !heard(s, r),
    ensures
        first_seen(s, r) == i64::MAX,
    decreases s.len(),
{
    if s.len() > 0 {
        assert(!heard(s.drop_last(), r)) by {
            if heard(s.drop_last(), r) {
                let k = choose|k: int| 0 <= k < s.drop_last().len() && s.drop_last()[k].recording@ == r;
                assert(s[k] == s.drop_last()[k]);
            }
        }
        assert(s.last() == s[s.len() - 1]);
        lemma_first_seen_unheard(s.drop_last(), r);
    }
}

/// Ranking keys that put the earliest discovery first.
pub open spec fn discovery_items(d: Seq<(String, i64)>) -> Seq<(u64, u64)> {
    d.map_values(|e: (String, i64)| ((MAX_LISTEN_TS - e.1) as u64, 0u64))
}

/// `t` holds the last points of the discovery timeline of `s`: the first
/// play of each recording in time order, with the number of recordings
/// discovered so far.
pub open spec fn timeline_of(t: Seq<(i64, u64)>, s: Seq<Play>) -> bool {
    exists|d: Seq<(String, i64)>, order: Seq<usize>|
        {
            &&& discovery_table(d, s)
            &&& is_ranking(discovery_items(d), d.len() as int, order)
            &&& t.len() == if d.len() < TIMELINE_POINTS { d.len() as int } else { TIMELINE_POINTS as int }
            &&& forall|i: int|
                0 <= i < t.len() ==> {
                    &&& (#[trigger] t[i]).0 == d[order[d.len() - t.len() + i] as int].1
                    &&& t[i].1 == d.len() - t.len() + i + 1
                }
            &&& t.len() > 0 ==> t.last().1 == d.len()
        }
}

/// The discovery timeline: its last points, oldest first.
pub fn discovery_timeline(plays: &Vec<Play>, ix: &CatalogIndex) -> (t: Vec<(i64, u64)>)
    requires
        plays@.len() <= MAX_PLAYS,
        forall|i: int| 0 <= i < plays@.len() ==> play_valid(#[trigger] plays@[i], *ix),
    ensures
        timeline_of(t@, plays@),
        forall|i: int, j: int| 0 <= i < j < t@.len() ==> t@[i].1 < t@[j].1 && t@[i].0 <= t@[j].0,
{
    let d = discoveries(plays);
    let ghost dv = d@;
    proof {
        assert forall|i: int| 0 <= i < d@.len() implies listen_time(#[trigger] d@[i].1 as int) by {
            lemma_first_seen_attained(plays@, d@[i].0@);
            let k = choose|k: int| 0 <= k < plays@.len() && plays@[k].recording@ == d@[i].0@ && plays@[k].ts == first_seen(plays@, d@[i].0@);
            assert(play_valid(plays@[k], *ix));
        }
    }
    let mut items: Vec<(u64, u64)> = Vec::new();
    let mut k: usize = 0;
    while k < d.len()
        invariant
            dv == d@,
            discovery_table(d@, plays@),
            forall|i: int| 0 <= i < plays@.len() ==> play_valid(#[trigger] plays@[i], *ix),
            k <= d@.len(),
            items@ == discovery_items(d@).take(k as int),
            forall|i: int| 0 <= i < d@.len() ==> listen_time(#[trigger] d@[i].1 as int),
        decreases d@.len() - k,
    {
        items.push(((MAX_LISTEN_TS - d[k].1) as u64, 0));
        assert(items@ =~= discovery_items(d@).take(k as int + 1));
        k = k + 1;
    }
    assert(items@ =~= discovery_items(d@));
    let order = rank_top(&items, d.len());
    let n = d.len();
    assert forall|a: int| 0 <= a < n implies #[trigger] order@[a] < n by {
        assert(is_next(items@, order@.take(a), order@[a] as int));
    }
    let keep = if n < TIMELINE_POINTS { n } else { TIMELINE_POINTS };
    let mut t: Vec<(i64, u64)> = Vec::new();
    let mut i: usize = n - keep;
    while i < n
        invariant
            n == d@.len(),
            keep <= n,
            n - keep <= i <= n,
            order@.len() == n,
            is_ranking(items@, n as int, order@),
            forall|a: int| 0 <= a < n ==> #[trigger] order@[a] < n,
            t@.len() == i - (n - keep),
            forall|a: int|
                0 <= a < t@.len() ==> {
                    &&& (#[trigger] t@[a]).0 == d@[order@[n - keep + a] as int].1
                    &&& t@[a].1 == n - keep + a + 1
                },
        decreases n - i,
    {
        t.push((d[order[i]].1, (i + 1) as u64));
        i = i + 1;
    }
    proof {
        assert forall|a: int, b: int| 0 <= a < b < t@.len() implies t@[a].1 < t@[b].1 && t@[a].0 <= t@[b].0 by {
            lemma_ranking_ordered(items@, n as int, order@, n - keep + a, n - keep + b);
            let oa = order@[n - keep + a] as int;
            let ob = order@[n - keep + b] as int;
            assert(is_next(items@, order@.take(n - keep + a), oa));
            assert(is_next(items@, order@.take(n - keep + b), ob));
            assert(listen_time(d@[oa].1 as int));
            assert(listen_time(d@[ob].1 as int));
        }
    }
    t
}

proof fn lemma_first_seen_attained(s: Seq<Play>, r: Seq<char>)
    requires
        heard(s, r),
    ensures
        exists|k: int| 0 <= k < s.len() && s[k].recording@ == r && s[k].ts == first_seen(s, r),
    decreases s.len(),
{
    let init = s.drop_last();
    if heard(init, r) {
        lemma_first_seen_attained(init, r);
        let k = choose|k: int| 0 <= k < init.len() && init[k].recording@ == r && init[k].ts == first_seen(init, r);
        assert(s[k] == init[k]);
        if s.last().recording@ == r && (s.last().ts as int) < first_seen(init, r) {
            assert(s[s.len() - 1] == s.last());
        }
    } else {
        lemma_first_seen_unheard(init, r);
        let k = choose|k: int| 0 <= k < s.len() && s[k].recording@ == r;
        if k < init.len() {
            assert(init[k] == s[k]);
        }
        assert(s[s.len() - 1] == s.last());
    }
}

} // verus!

verus! {

/// Artwork of the release group at position `g`.
pub open spec fn image_of(ix: CatalogIndex, g: int) -> Option<String> {
    if 0 <= g < ix.groups@.len() {
        ix.groups@[g].image_url
    } else {
        None
    }
}

/// Completion of an album tally capped at one.
pub open spec fn capped_ratio(a: (int, int, int, Seq<Seq<char>>), ix: CatalogIndex) -> int {
    if album_ratio(a, ix) > RATIO_ONE {
        RATIO_ONE as int
    } else {
        album_ratio(a, ix)
    }
}

/// Ranking keys of albums for the completion chart: capped completion, then plays.
pub open spec fn completion_items(t: Seq<(int, int, int, Seq<Seq<char>>)>, ix: CatalogIndex) -> Seq<(u64, u64)> {
    t.map_values(|a: (int, int, int, Seq<Seq<char>>)| (capped_ratio(a, ix) as u64, a.1 as u64))
}

/// Ranking keys of albums by plays, then minutes.
pub open spec fn weight_items(t: Seq<(int, int, int, Seq<Seq<char>>)>) -> Seq<(u64, u64)> {
    t.map_values(|a: (int, int, int, Seq<Seq<char>>)| (a.1 as u64, a.2 as u64))
}

/// Ranking keys of tracks by minutes, then plays.
pub open spec fn time_items(t: Seq<(Seq<char>, int, int, int, int)>) -> Seq<(u64, u64)> {
    t.map_values(|x: (Seq<char>, int, int, int, int)| (x.2 as u64, x.1 as u64))
}

/// `out` lists (title, capped completion, artwork) of the best albums.
pub open spec fn completion_chart(out: Seq<(String, u64, Option<String>)>, t: Seq<(int, int, int, Seq<Seq<char>>)>, ix: CatalogIndex) -> bool {
    exists|r: Seq<usize>|
        {
            &&& is_ranking(completion_items(t, ix), CHART_ITEMS as int, r)
            &&& out.len() == r.len()
            &&& forall|i: int|
                0 <= i < r.len() ==> {
                    &&& (#[trigger] out[i]).0@ == title_of(ix, t[r[i] as int].0)
                    &&& out[i].1 == capped_ratio(t[r[i] as int], ix)
                    &&& out[i].2 == image_of(ix, t[r[i] as int].0)
                }
        }
}

/// `out` lists (title, plays, artwork) of the most played albums.
pub open spec fn weight_chart(out: Seq<(String, u64, Option<String>)>, t: Seq<(int, int, int, Seq<Seq<char>>)>, ix: CatalogIndex) -> bool {
    exists|r: Seq<usize>|
        {
            &&& is_ranking(weight_items(t), CHART_ITEMS as int, r)
            &&& out.len() == r.len()
            &&& forall|i: int|
                0 <= i < r.len() ==> {
                    &&& (#[trigger] out[i]).0@ == title_of(ix, t[r[i] as int].0)
                    &&& out[i].1 == t[r[i] as int].1
                    &&& out[i].2 == image_of(ix, t[r[i] as int].0)
                }
        }
}

/// `out` lists (name, minutes) of the tracks with the most minutes.
pub open spec fn time_chart(out: Seq<(String, u64)>, t: Seq<(Seq<char>, int, int, int, int)>) -> bool {
    exists|r: Seq<usize>|
        {
            &&& is_ranking(time_items(t), CHART_ITEMS as int, r)
            &&& out.len() == r.len()
            &&& forall|i: int|
                0 <= i < r.len() ==> {
                    &&& (#[trigger] out[i]).0@ == t[r[i] as int].0
                    &&& out[i].1 == t[r[i] as int].2
                }
        }
}

fn group_image(ix: &CatalogIndex, g: usize) -> (r: Option<String>)
    ensures
        r == image_of(*ix, g as int),
{
    if g < ix.groups.len() {
        clone_opt(&ix.groups[g].image_url)
    } else {
        None
    }
}

fn group_title(ix: &CatalogIndex, g: usize) -> (r: String)
    ensures
        r@ == title_of(*ix, g as int),
{
    if g < ix.groups.len() {
        ix.groups[g].title.clone()
    } else {
        String::new()
    }
}

/// Completion of the heard albums, capped at one, best first: the top ten.
pub fn album_completion(all: &PeriodWork, ix: &CatalogIndex) -> (out: Vec<(String, u64, Option<String>)>)
    requires
        all.bounded(),
    ensures
        completion_chart(out@, all.albums_view(), *ix),
        forall|i: int| 0 <= i < out@.len() ==> (#[trigger] out@[i]).1 <= RATIO_ONE,
{
    let ghost t = all.albums_view();
    let mut items: Vec<(u64, u64)> = Vec::new();
    let mut i: usize = 0;
    while i < all.albums.len()
        invariant
            all.bounded(),
            t == all.albums_view(),
            i <= all.albums@.len(),
            items@ == completion_items(t, *ix).take(i as int),
        decreases all.albums@.len() - i,
    {
        let a = &all.albums[i];
        assert(all.albums@[i as int].plays <= all.scrobbles);
        assert(t[i as int].3.len() == a.recordings@.len());
        let total = if a.group < ix.groups.len() { ix.groups[a.group].track_count } else { 0 };
        let ratio = if total == 0 { 0 } else { (a.recordings.len() as u64 * 1_000_000) / total as u64 };
        let capped = if ratio > RATIO_ONE { RATIO_ONE } else { ratio };
        items.push((capped, a.plays));
        assert(items@ =~= completion_items(t, *ix).take(i as int + 1));
        i = i + 1;
    }
    assert(items@ =~= completion_items(t, *ix));
    let order = rank_top(&items, CHART_ITEMS);
    let mut out: Vec<(String, u64, Option<String>)> = Vec::new();
    let mut j: usize = 0;
    while j < order.len()
        invariant
            all.bounded(),
            t == all.albums_view(),
            items@ == completion_items(t, *ix),
            is_ranking(items@, CHART_ITEMS as int, order@),
            j <= order@.len(),
            out@.len() == j,
            forall|k: int|
                0 <= k < j ==> {
                    &&& (#[trigger] out@[k]).0@ == title_of(*ix, t[order@[k] as int].0)
                    &&& out@[k].1 == capped_ratio(t[order@[k] as int], *ix)
                    &&& out@[k].2 == image_of(*ix, t[order@[k] as int].0)
                },
            forall|k: int| 0 <= k < j ==> (#[trigger] out@[k]).1 <= RATIO_ONE,
        decreases order@.len() - j,
    {
        let p = order[j];
        assert(is_next(items@, order@.take(j as int), order@[j as int] as int));
        let a = &all.albums[p];
        out.push((group_title(ix, a.group), items[p].0, group_image(ix, a.group)));
        j = j + 1;
    }
    out
}

/// The most played albums as (title, plays, artwork): the top ten.
pub fn album_weight(all: &PeriodWork, ix: &CatalogIndex) -> (out: Vec<(String, u64, Option<String>)>)
    requires
        all.bounded(),
    ensures
        weight_chart(out@, all.albums_view(), *ix),
{
    let ghost t = all.albums_view();
    let mut items: Vec<(u64, u64)> = Vec::new();
    let mut i: usize = 0;
    while i < all.albums.len()
        invariant
            t == all.albums_view(),
            i <= all.albums@.len(),
            items@ == weight_items(t).take(i as int),
        decreases all.albums@.len() - i,
    {
        items.push((all.albums[i].plays, all.albums[i].minutes));
        assert(items@ =~= weight_items(t).take(i as int + 1));
        i = i + 1;
    }
    assert(items@ =~= weight_items(t));
    let order = rank_top(&items, CHART_ITEMS);
    let mut out: Vec<(String, u64, Option<String>)> = Vec::new();
    let mut j: usize = 0;
    while j < order.len()
        invariant
            t == all.albums_view(),
            items@ == weight_items(t),
            is_ranking(items@, CHART_ITEMS as int, order@),
            j <= order@.len(),
            out@.len() == j,
            forall|k: int|
                0 <= k < j ==> {
                    &&& (#[trigger] out@[k]).0@ == title_of(*ix, t[order@[k] as int].0)
                    &&& out@[k].1 == t[order@[k] as int].1
                    &&& out@[k].2 == image_of(*ix, t[order@[k] as int].0)
                },
        decreases order@.len() - j,
    {
        let p = order[j];
        assert(is_next(items@, order@.take(j as int), order@[j as int] as int));
        let a = &all.albums[p];
        out.push((group_title(ix, a.group), a.plays, group_image(ix, a.group)));
        j = j + 1;
    }
    out
}

/// The tracks with the most minutes as (name, minutes): the top ten.
pub fn track_time_leaderboard(all: &PeriodWork) -> (out: Vec<(String, u64)>)
    ensures
        time_chart(out@, all.tracks_view()),
{
    let ghost t = all.tracks_view();
    let mut items: Vec<(u64, u64)> = Vec::new();
    let mut i: usize = 0;
    while i < all.tracks.len()
        invariant
            t == all.tracks_view(),
            i <= all.tracks@.len(),
            items@ == time_items(t).take(i as int),
        decreases all.tracks@.len() - i,
    {
        items.push((all.tracks[i].minutes, all.tracks[i].plays));
        assert(items@ =~= time_items(t).take(i as int + 1));
        i = i + 1;
    }
    assert(items@ =~= time_items(t));
    let order = rank_top(&items, CHART_ITEMS);
    let mut out: Vec<(String, u64)> = Vec::new();
    let mut j: usize = 0;
    while j < order.len()
        invariant
            t == all.tracks_view(),
            items@ == time_items(t),
            is_ranking(items@, CHART_ITEMS as int, order@),
            j <= order@.len(),
            out@.len() == j,
            forall|k: int|
                0 <= k < j ==> {
                    &&& (#[trigger] out@[k]).0@ == t[order@[k] as int].0
                    &&& out@[k].1 == t[order@[k] as int].2
                },
        decreases order@.len() - j,
    {
        let p = order[j];
        assert(is_next(items@, order@.take(j as int), order@[j as int] as int));
        let x = &all.tracks[p];
        out.push((x.name.clone(), x.minutes));
        j = j + 1;
    }
    out
}

} // verus!

verus! {

/// Whole days since `last`, at `now` (0 when `last` is later).
pub open spec fn idle_days(now: int, last: int) -> int {
    if now >= last {
        (now - last) / SECONDS_PER_DAY as int
    } else {
        0
    }
}

/// Track tally `x` has more than `min_plays` plays and has rested for at
/// least `FORGOTTEN_DAYS` days at `now`.
pub open spec fn rested(x: (Seq<char>, int, int, int, int), now: int, min_plays: int) -> bool {
    x.1 > min_plays && idle_days(now, x.3) >= FORGOTTEN_DAYS
}

/// `cand` lists, in increasing order, the positions of the tallies that rested.
pub open spec fn rested_positions(cand: Seq<usize>, t: Seq<(Seq<char>, int, int, int, int)>, now: int, min_plays: int) -> bool {
    &&& forall|i: int| 0 <= i < cand.len() ==> (#[trigger] cand[i]) < t.len() && rested(t[cand[i] as int], now, min_plays)
    &&& forall|i: int, j: int| 0 <= i < j < cand.len() ==> cand[i] < cand[j]
    &&& forall|p: int| 0 <= p < t.len() && rested(#[trigger] t[p], now, min_plays) ==> cand.contains(p as usize)
}

/// Whole idle days of a tally at `now`.
fn idle(now: i64, last: i64) -> (r: i128)
    ensures
        r == idle_days(now as int, last as int),
{
    let diff = now as i128 - last as i128;
    if diff >= 0 {
        diff / (SECONDS_PER_DAY as i128)
    } else {
        0
    }
}

/// Positions of the track tallies that rested, in order.
fn rested_tracks(all: &PeriodWork, now: i64, min_plays: u64) -> (cand: Vec<usize>)
    ensures
        rested_positions(cand@, all.tracks_view(), now as int, min_plays as int),
{
    let ghost t = all.tracks_view();
    let mut cand: Vec<usize> = Vec::new();
    let mut i: usize = 0;
    while i < all.tracks.len()
        invariant
            t == all.tracks_view(),
            i <= all.tracks@.len(),
            forall|a: int| 0 <= a < cand@.len() ==> (#[trigger] cand@[a]) < i && rested(t[cand@[a] as int], now as int, min_plays as int),
            forall|a: int, b: int| 0 <= a < b < cand@.len() ==> cand@[a] < cand@[b],
            forall|p: int| 0 <= p < i && rested(#[trigger] t[p], now as int, min_plays as int) ==> cand@.contains(p as usize),
        decreases all.tracks@.len() - i,
    {
        let x = &all.tracks[i];
        if x.plays > min_plays && idle(now, x.last_seen) >= FORGOTTEN_DAYS as i128 {
            let ghost c0 = cand@;
            cand.push(i);
            assert forall|p: int| 0 <= p < i + 1 && rested(#[trigger] t[p], now as int, min_plays as int) implies cand@.contains(p as usize) by {
                if p < i {
                    let a = choose|a: int| 0 <= a < c0.len() && c0[a] == p as usize;
                    assert(cand@[a] == p as usize);
                } else {
                    assert(cand@[c0.len() as int] == p as usize);
                }
            }
        }
        i = i + 1;
    }
    cand
}

/// Ranking keys of rested tracks: plays, then idle days.
pub open spec fn rested_items(t: Seq<(Seq<char>, int, int, int, int)>, cand: Seq<usize>, now: int) -> Seq<(u64, u64)> {
    cand.map_values(|c: usize| (t[c as int].1 as u64, idle_days(now, t[c as int].3) as u64))
}

/// `out` lists (name, idle days, plays) of the most played forgotten tracks.
pub open spec fn forgotten_chart(out: Seq<(String, u64, u64)>, t: Seq<(Seq<char>, int, int, int, int)>, now: int) -> bool {
    exists|cand: Seq<usize>, r: Seq<usize>|
        {
            &&& rested_positions(cand, t, now, FORGOTTEN_MIN_PLAYS as int)
            &&& is_ranking(rested_items(t, cand, now), CHART_ITEMS as int, r)
            &&& out.len() == r.len()
            &&& forall|i: int|
                0 <= i < r.len() ==> {
                    &&& (#[trigger] out[i]).0@ == t[cand[r[i] as int] as int].0
                    &&& out[i].1 == idle_days(now, t[cand[r[i] as int] as int].3)
                    &&& out[i].2 == t[cand[r[i] as int] as int].1
                }
        }
}

/// Tracks idle for at least 30 days with more than two plays, most played
/// first: the top ten, as (name, idle days, plays).
pub fn forgotten_classics(all: &PeriodWork, now: i64) -> (out: Vec<(String, u64, u64)>)
    ensures
        forgotten_chart(out@, all.tracks_view(), now as int),
        forall|i: int|
            0 <= i < out@.len() ==> (#[trigger] out@[i]).1 >= FORGOTTEN_DAYS && out@[i].2 > FORGOTTEN_MIN_PLAYS,
        out@.len() == 0 <==> forall|p: int|
            0 <= p < all.tracks_view().len() ==> !rested(#[trigger] all.tracks_view()[p], now as int, FORGOTTEN_MIN_PLAYS as int),
{
    let ghost t = all.tracks_view();
    let cand = rested_tracks(all, now, FORGOTTEN_MIN_PLAYS);
    let mut items: Vec<(u64, u64)> = Vec::new();
    let mut i: usize = 0;
    while i < cand.len()
        invariant
            t == all.tracks_view(),
            rested_positions(cand@, t, now as int, FORGOTTEN_MIN_PLAYS as int),
            i <= cand@.len(),
            items@ == rested_items(t, cand@, now as int).take(i as int),
        decreases cand@.len() - i,
    {
        let x = &all.tracks[cand[i]];
        assert(rested(t[cand@[i as int] as int], now as int, FORGOTTEN_MIN_PLAYS as int));
        let days = idle(now, x.last_seen);
        assert(days <= u64::MAX) by {
            assert((now as int - x.last_seen as int) / 86_400 <= u64::MAX);
        }
        items.push((x.plays, days as u64));
        assert(items@ =~= rested_items(t, cand@, now as int).take(i as int + 1));
        i = i + 1;
    }
    assert(items@ =~= rested_items(t, cand@, now as int));
    let order = rank_top(&items, CHART_ITEMS);
    let mut out: Vec<(String, u64, u64)> = Vec::new();
    let mut j: usize = 0;
    while j < order.len()
        invariant
            t == all.tracks_view(),
            rested_positions(cand@, t, now as int, FORGOTTEN_MIN_PLAYS as int),
            items@ == rested_items(t, cand@, now as int),
            is_ranking(items@, CHART_ITEMS as int, order@),
            j <= order@.len(),
            out@.len() == j,
            forall|k: int|
                0 <= k < j ==> {
                    &&& (#[trigger] out@[k]).0@ == t[cand@[order@[k] as int] as int].0
                    &&& out@[k].1 == idle_days(now as int, t[cand@[order@[k] as int] as int].3)
                    &&& out@[k].2 == t[cand@[order@[k] as int] as int].1
                },
            forall|k: int| 0 <= k < j ==> (#[trigger] out@[k]).1 >= FORGOTTEN_DAYS && out@[k].2 > FORGOTTEN_MIN_PLAYS,
        decreases order@.len() - j,
    {
        let p = order[j];
        assert(is_next(items@, order@.take(j as int), order@[j as int] as int));
        let x = &all.tracks[cand[p]];
        assert(rested(t[cand@[p as int] as int], now as int, FORGOTTEN_MIN_PLAYS as int));
        out.push((x.name.clone(), items[p].1, x.plays));
        j = j + 1;
    }
    proof {
        if out@.len() == 0 {
            assert forall|p: int| 0 <= p < t.len() implies !rested(#[trigger] t[p], now as int, FORGOTTEN_MIN_PLAYS as int) by {
                if rested(t[p], now as int, FORGOTTEN_MIN_PLAYS as int) {
                    assert(cand@.contains(p as usize));
                }
            }
        } else {
            let c = cand@[order@[0] as int] as int;
            assert(is_next(items@, order@.take(0), order@[0] as int));
            assert(rested(t[c], now as int, FORGOTTEN_MIN_PLAYS as int));
        }
    }
    out
}

/// Day number of `now`, counted from the earliest listening time.
pub open spec fn day_index(now: int) -> int {
    (now - crate::calendar::MIN_LISTEN_TS) / SECONDS_PER_DAY as int
}

/// Song of the day: among tracks not played for 30 days the most played one
/// (ties: the first one played), as (track, album title); with no such track, the
/// catalog recording that the day number picks.
pub open spec fn song_of_the_day_is(r: Option<(String, String)>, t: Seq<(Seq<char>, int, int, int, int)>, now: int, ix: CatalogIndex) -> bool {
    if exists|p: int| 0 <= p < t.len() && rested(#[trigger] t[p], now, 0) {
        exists|cand: Seq<usize>, order: Seq<usize>|
            {
                &&& rested_positions(cand, t, now, 0)
                &&& is_ranking(rested_items(t, cand, now), 1, order)
                &&& order.len() == 1
                &&& r.is_some()
                &&& r.unwrap().0@ == t[cand[order[0] as int] as int].0
                &&& r.unwrap().1@ == title_of(ix, t[cand[order[0] as int] as int].4)
            }
    } else if ix.names@.len() > 0 {
        let c = ix.names@[day_index(now) % ix.names@.len() as int];
        r.is_some() && r.unwrap().0@ == c.title@ && r.unwrap().1@ == title_of(ix, c.group as int)
    } else {
        r.is_none()
    }
}

/// The song of the day at `now`.
pub fn song_of_the_day(all: &PeriodWork, now: i64, ix: &CatalogIndex) -> (r: Option<(String, String)>)
    requires
        listen_time(now as int),
    ensures
        song_of_the_day_is(r, all.tracks_view(), now as int, *ix),
{
    let ghost t = all.tracks_view();
    let cand = rested_tracks(all, now, 0);
    let mut items: Vec<(u64, u64)> = Vec::new();
    let mut i: usize = 0;
    while i < cand.len()
        invariant
            t == all.tracks_view(),
            rested_positions(cand@, t, now as int, 0),
            i <= cand@.len(),
            items@ == rested_items(t, cand@, now as int).take(i as int),
        decreases cand@.len() - i,
    {
        let x = &all.tracks[cand[i]];
        assert(rested(t[cand@[i as int] as int], now as int, 0));
        let days = idle(now, x.last_seen);
        assert(days <= u64::MAX) by {
            assert((now as int - x.last_seen as int) / 86_400 <= u64::MAX);
        }
        items.push((x.plays, days as u64));
        assert(items@ =~= rested_items(t, cand@, now as int).take(i as int + 1));
        i = i + 1;
    }
    assert(items@ =~= rested_items(t, cand@, now as int));
    let order = rank_top(&items, 1);
    if order.len() > 0 {
        assert(is_next(items@, order@.take(0), order@[0] as int));
        let x = &all.tracks[cand[order[0]]];
        assert(rested(t[cand@[order@[0] as int] as int], now as int, 0));
        return Some((x.name.clone(), group_title(ix, x.group)));
    }
    proof {
        assert forall|p: int| 0 <= p < t.len() implies !rested(#[trigger] t[p], now as int, 0) by {
            if rested(t[p], now as int, 0) {
                assert(cand@.contains(p as usize));
            }
        }
    }
    if ix.names.len() > 0 {
        let day = ((now - crate::calendar::MIN_LISTEN_TS) / SECONDS_PER_DAY) as usize;
        let c = &ix.names[day % ix.names.len()];
        Some((c.title.clone(), group_title(ix, c.group)))
    } else {
        None
    }
}

} // verus!

verus! {

/// Number of plays of `s` in UTC hour `h`.
pub open spec fn count_hour(s: Seq<Play>, h: int) -> int
    decreases s.len(),
{
    if s.len() == 0 {
        0
    } else {
        count_hour(s.drop_last(), h) + if s.last().hour == h {
            1int
        } else {
            0int
        }
    }
}

proof fn lemma_count_hour_le(s: Seq<Play>, h: int)
    ensures
        0 <= count_hour(s, h) <= s.len(),
    decreases s.len(),
{
    if s.len() > 0 {
        lemma_count_hour_le(s.drop_last(), h);
    }
}

/// Plays per UTC hour of the day, for all 24 hours in order.
pub fn hourly_activity(plays: &Vec<Play>, ix: &CatalogIndex) -> (r: Vec<(u32, u64)>)
    requires
        plays@.len() <= MAX_PLAYS,
        forall|i: int| 0 <= i < plays@.len() ==> play_valid(#[trigger] plays@[i], *ix),
    ensures
        r@.len() == 24,
        forall|h: int| 0 <= h < 24 ==> (#[trigger] r@[h]).0 == h && r@[h].1 == count_hour(plays@, h),
{
    let mut counts: Vec<u64> = Vec::new();
    let mut h: usize = 0;
    while h < 24
        invariant
            h <= 24,
            counts@.len() == h,
            forall|k: int| 0 <= k < h ==> counts@[k] == 0,
        decreases 24 - h,
    {
        counts.push(0);
        h = h + 1;
    }
    let mut i: usize = 0;
    while i < plays.len()
        invariant
            i <= plays@.len(),
            plays@.len() <= MAX_PLAYS,
            forall|j: int| 0 <= j < plays@.len() ==> play_valid(#[trigger] plays@[j], *ix),
            counts@.len() == 24,
            forall|k: int| 0 <= k < 24 ==> counts@[k] == count_hour(plays@.take(i as int), k),
        decreases plays@.len() - i,
    {
        let ghost pre = plays@.take(i as int);
        assert(plays@.take(i as int + 1).drop_last() == pre);
        assert(play_valid(plays@[i as int], *ix));
        let hr = plays[i].hour as usize;
        proof {
            lemma_count_hour_le(pre, hr as int);
            crate::calendar::lemma_hour_range(plays@[i as int].ts as int);
        }
        counts.set(hr, counts[hr] + 1);
        i = i + 1;
    }
    assert(plays@.take(i as int) == plays@);
    let mut r: Vec<(u32, u64)> = Vec::new();
    let mut k: usize = 0;
    while k < 24
        invariant
            k <= 24,
            counts@.len() == 24,
            forall|x: int| 0 <= x < 24 ==> counts@[x] == count_hour(plays@, x),
            r@.len() == k,
            forall|x: int| 0 <= x < k ==> (#[trigger] r@[x]).0 == x && r@[x].1 == count_hour(plays@, x),
        decreases 24 - k,
    {
        r.push((k as u32, counts[k]));
        k = k + 1;
    }
    r
}

/// Number of plays of `s` in the period with key `k` (see `period::with_key`).
pub fn count_key(plays: &Vec<Play>, by_month: bool, k: i64) -> (r: u64)
    requires
        plays@.len() <= MAX_PLAYS,
    ensures
        r == crate::period::with_key(plays@, by_month, k).len(),
{
    let mut n: u64 = 0;
    let mut i: usize = 0;
    while i < plays.len()
        invariant
            i <= plays@.len(),
            plays@.len() <= MAX_PLAYS,
            n == crate::period::with_key(plays@.take(i as int), by_month, k).len(),
        decreases plays@.len() - i,
    {
        let ghost pre = plays@.take(i as int);
        assert(plays@.take(i as int + 1).drop_last() == pre);
        proof {
            crate::period::lemma_with_key_len(pre, by_month, k);
        }
        let key = if by_month { plays[i].month } else { plays[i].day };
        if key == k {
            n = n + 1;
        }
        i = i + 1;
    }
    assert(plays@.take(i as int) == plays@);
    n
}

/// Days covered by the consistency grid.
pub const GRID_DAYS: i64 = 30;

/// Plays on each of the last 30 listening days, oldest first, as
/// (day start, plays).
pub fn consistency_grid(plays: &Vec<Play>, now: i64) -> (r: Vec<(i64, u64)>)
    requires
        plays@.len() <= MAX_PLAYS,
        listen_time(now as int),
    ensures
        r@.len() == GRID_DAYS,
        forall|i: int|
            0 <= i < GRID_DAYS ==> {
                &&& (#[trigger] r@[i]).0 == crate::calendar::day_start_of(now as int) - (GRID_DAYS - 1 - i) * SECONDS_PER_DAY
                &&& r@[i].1 == crate::period::with_key(plays@, false, r@[i].0).len()
            },
{
    let today = crate::calendar::day_start(now);
    let mut r: Vec<(i64, u64)> = Vec::new();
    let mut i: i64 = 0;
    while i < GRID_DAYS
        invariant
            0 <= i <= GRID_DAYS,
            plays@.len() <= MAX_PLAYS,
            listen_time(now as int),
            today == crate::calendar::day_start_of(now as int),
            today <= now < today + SECONDS_PER_DAY,
            r@.len() == i,
            forall|a: int|
                0 <= a < i ==> {
                    &&& (#[trigger] r@[a]).0 == crate::calendar::day_start_of(now as int) - (GRID_DAYS - 1 - a) * SECONDS_PER_DAY
                    &&& r@[a].1 == crate::period::with_key(plays@, false, r@[a].0).len()
                },
        decreases GRID_DAYS - i,
    {
        let day = today - (GRID_DAYS - 1 - i) * SECONDS_PER_DAY;
        let n = count_key(plays, false, day);
        r.push((day, n));
        i = i + 1;
    }
    r
}

/// Months covered by the monthly volume chart.
pub const VOLUME_MONTHS: i64 = 12;

/// Plays in each of the last 12 months, oldest first, as (three-letter
/// label, plays); the months are those of the instants 30 days apart back
/// from `now`.
pub fn monthly_volume(plays: &Vec<Play>, now: i64) -> (r: Vec<(String, u64)>)
    requires
        plays@.len() <= MAX_PLAYS,
        listen_time(now as int),
    ensures
        r@.len() == VOLUME_MONTHS,
        forall|i: int|
            0 <= i < VOLUME_MONTHS ==> {
                let t = now - (VOLUME_MONTHS - 1 - i) * SECONDS_PER_MONTH;
                &&& (#[trigger] r@[i]).0@ == crate::calendar::month_abbrev_of(crate::calendar::civil_year_month(t).1)
                &&& r@[i].1 == crate::period::with_key(plays@, true, crate::calendar::month_key_of(t) as i64).len()
            },
{
    let mut r: Vec<(String, u64)> = Vec::new();
    let mut i: i64 = 0;
    while i < VOLUME_MONTHS
        invariant
            0 <= i <= VOLUME_MONTHS,
            plays@.len() <= MAX_PLAYS,
            listen_time(now as int),
            r@.len() == i,
            forall|a: int|
                0 <= a < i ==> {
                    let t = now - (VOLUME_MONTHS - 1 - a) * SECONDS_PER_MONTH;
                    &&& (#[trigger] r@[a]).0@ == crate::calendar::month_abbrev_of(crate::calendar::civil_year_month(t).1)
                    &&& r@[a].1 == crate::period::with_key(plays@, true, crate::calendar::month_key_of(t) as i64).len()
                },
        decreases VOLUME_MONTHS - i,
    {
        let t = now - (VOLUME_MONTHS - 1 - i) * SECONDS_PER_MONTH;
        let (_, m) = crate::calendar::year_month(t);
        let key = crate::calendar::month_key(t);
        let n = count_key(plays, true, key);
        r.push((crate::calendar::month_abbrev(m).to_string(), n));
        i = i + 1;
    }
    r
}

} // verus!

verus! {

/// Number of plays of `s` in calendar year `y`.
pub open spec fn count_year(s: Seq<Play>, y: int) -> int
    decreases s.len(),
{
    if s.len() == 0 {
        0
    } else {
        count_year(s.drop_last(), y) + if crate::calendar::year_of_key(s.last().month as int) == y {
            1int
        } else {
            0int
        }
    }
}

proof fn lemma_count_year_le(s: Seq<Play>, y: int)
    ensures
        0 <= count_year(s, y) <= s.len(),
    decreases s.len(),
{
    if s.len() > 0 {
        lemma_count_year_le(s.drop_last(), y);
    }
}

pub open spec fn has_year(t: Seq<(i32, u64)>, y: int) -> bool {
    exists|i: int| 0 <= i < t.len() && t[i].0 == y
}

/// `t` lists each year of the plays `s` once, with its number of plays.
pub open spec fn year_table(t: Seq<(i32, u64)>, s: Seq<Play>) -> bool {
    &&& forall|i: int| 0 <= i < t.len() ==> (#[trigger] t[i]).1 == count_year(s, t[i].0 as int) && t[i].1 >= 1
    &&& forall|i: int, j: int| 0 <= i < t.len() && 0 <= j < t.len() && i != j ==> t[i].0 != t[j].0
    &&& forall|k: int| 0 <= k < s.len() ==> has_year(t, crate::calendar::year_of_key((#[trigger] s[k]).month as int))
}

/// Ranking keys that put the earliest year first.
pub open spec fn year_items(t: Seq<(i32, u64)>) -> Seq<(u64, u64)> {
    t.map_values(|e: (i32, u64)| ((MAX_YEAR - e.0) as u64, 0u64))
}

/// Plays per calendar year, years in increasing order.
pub fn yearly_distribution(plays: &Vec<Play>, ix: &CatalogIndex) -> (r: Vec<(i32, u64)>)
    requires
        plays@.len() <= MAX_PLAYS,
        forall|i: int| 0 <= i < plays@.len() ==> play_valid(#[trigger] plays@[i], *ix),
    ensures
        year_table(r@, plays@),
        forall|i: int, j: int| 0 <= i < j < r@.len() ==> r@[i].0 < r@[j].0,
{
    let mut t: Vec<(i32, u64)> = Vec::new();
    let mut i: usize = 0;
    while i < plays.len()
        invariant
            i <= plays@.len(),
            plays@.len() <= MAX_PLAYS,
            forall|j: int| 0 <= j < plays@.len() ==> play_valid(#[trigger] plays@[j], *ix),
            year_table(t@, plays@.take(i as int)),
            forall|a: int| 0 <= a < t@.len() ==> crate::calendar::MIN_YEAR - 40_000 <= (#[trigger] t@[a]).0 <= MAX_YEAR,
        decreases plays@.len() - i,
    {
        let ghost pre = plays@.take(i as int);
        let ghost post = plays@.take(i as int + 1);
        assert(post.drop_last() == pre && post.last() == plays@[i as int]);
        assert(play_valid(plays@[i as int], *ix));
        let y = crate::calendar::key_year(plays[i].month);
        let ghost t0 = t@;
        let mut j: usize = 0;
        while j < t.len() && t[j].0 != y
            invariant
                j <= t@.len(),
                forall|k: int| 0 <= k < j ==> t@[k].0 != y,
            decreases t@.len() - j,
        {
            j = j + 1;
        }
        proof {
            assert forall|a: int| 0 <= a < t0.len() implies count_year(pre, t0[a].0 as int) <= pre.len() by {
                lemma_count_year_le(pre, t0[a].0 as int);
            }
        }
        if j < t.len() {
            let c = t[j].1;
            t.set(j, (y, c + 1));
            assert forall|k: int| 0 <= k < post.len() implies has_year(t@, crate::calendar::year_of_key((#[trigger] post[k]).month as int)) by {
                if k < pre.len() {
                    assert(post[k] == pre[k]);
                    let a = choose|a: int| 0 <= a < t0.len() && t0[a].0 == crate::calendar::year_of_key(pre[k].month as int);
                    assert(t@[a].0 == t0[a].0);
                } else {
                    assert(t@[j as int].0 == y);
                }
            }
        } else {
            assert(count_year(pre, y as int) == 0) by {
                lemma_count_year_zero(pre, y as int, t0);
            }
            t.push((y, 1));
            assert forall|k: int| 0 <= k < post.len() implies has_year(t@, crate::calendar::year_of_key((#[trigger] post[k]).month as int)) by {
                if k < pre.len() {
                    assert(post[k] == pre[k]);
                    let a = choose|a: int| 0 <= a < t0.len() && t0[a].0 == crate::calendar::year_of_key(pre[k].month as int);
                    assert(t@[a] == t0[a]);
                } else {
                    assert(t@[t0.len() as int].0 == y);
                }
            }
        }
        i = i + 1;
    }
    assert(plays@.take(i as int) == plays@);
    let mut items: Vec<(u64, u64)> = Vec::new();
    let mut k: usize = 0;
    while k < t.len()
        invariant
            k <= t@.len(),
            items@ == year_items(t@).take(k as int),
            forall|a: int| 0 <= a < t@.len() ==> crate::calendar::MIN_YEAR - 40_000 <= (#[trigger] t@[a]).0 <= MAX_YEAR,
        decreases t@.len() - k,
    {
        assert(t@[k as int].0 <= MAX_YEAR);
        items.push(((MAX_YEAR - t[k].0) as u64, 0));
        assert(items@ =~= year_items(t@).take(k as int + 1));
        k = k + 1;
    }
    assert(items@ =~= year_items(t@));
    let order = rank_top(&items, t.len());
    let mut r: Vec<(i32, u64)> = Vec::new();
    let mut j: usize = 0;
    while j < order.len()
        invariant
            items@ == year_items(t@),
            is_ranking(items@, t@.len() as int, order@),
            j <= order@.len(),
            r@.len() == j,
            forall|a: int| 0 <= a < j ==> #[trigger] r@[a] == t@[order@[a] as int],
        decreases order@.len() - j,
    {
        assert(is_next(items@, order@.take(j as int), order@[j as int] as int));
        r.push(t[order[j]]);
        j = j + 1;
    }
    proof {
        assert(order@.len() == t@.len());
        assert forall|a: int, b: int| 0 <= a < b < r@.len() implies r@[a].0 < r@[b].0 by {
            lemma_ranking_ordered(items@, t@.len() as int, order@, a, b);
            assert(is_next(items@, order@.take(a), order@[a] as int));
            assert(is_next(items@, order@.take(b), order@[b] as int));
        }
        lemma_ranking_permutes(items@, order@);
        assert forall|i: int| 0 <= i < r@.len() implies (#[trigger] r@[i]).1 == count_year(plays@, r@[i].0 as int) && r@[i].1 >= 1 by {
            assert(is_next(items@, order@.take(i), order@[i] as int));
        }
        assert forall|i: int, j: int| 0 <= i < r@.len() && 0 <= j < r@.len() && i != j implies r@[i].0 != r@[j].0 by {
            if i < j {
                lemma_ranking_ordered(items@, t@.len() as int, order@, i, j);
            } else {
                lemma_ranking_ordered(items@, t@.len() as int, order@, j, i);
            }
            assert(is_next(items@, order@.take(i), order@[i] as int));
            assert(is_next(items@, order@.take(j), order@[j] as int));
        }
        assert forall|k: int| 0 <= k < plays@.len() implies has_year(r@, crate::calendar::year_of_key((#[trigger] plays@[k]).month as int)) by {
            assert(has_year(t@, crate::calendar::year_of_key(plays@[k].month as int)));
            let a = choose|a: int| 0 <= a < t@.len() && t@[a].0 == crate::calendar::year_of_key(plays@[k].month as int);
            assert(order@.contains(a as usize));
            let i = choose|i: int| 0 <= i < order@.len() && order@[i] == a as usize;
            assert(r@[i] == t@[a]);
        }
    }
    r
}

proof fn lemma_count_year_zero(s: Seq<Play>, y: int, t: Seq<(i32, u64)>)
    requires
        forall|k: int| 0 <= k < s.len() ==> has_year(t, crate::calendar::year_of_key((#[trigger] s[k]).month as int)),
        forall|i: int| 0 <= i < t.len() ==> t[i].0 != y,
    ensures
        count_year(s, y) == 0,
    decreases s.len(),
{
    if s.len() > 0 {
        let init = s.drop_last();
        assert forall|k: int| 0 <= k < init.len() implies has_year(t, crate::calendar::year_of_key((#[trigger] init[k]).month as int)) by {
            assert(init[k] == s[k]);
        }
        lemma_count_year_zero(init, y, t);
        assert(s.last() == s[s.len() - 1]);
    }
}

} // verus!

verus! {

/// Release type of the release group at position `g`, if it has one.
pub open spec fn type_of(ix: CatalogIndex, g: int) -> Option<Seq<char>> {
    if 0 <= g < ix.groups@.len() {
        crate::catalog::opt_view(ix.groups@[g].release_type)
    } else {
        None
    }
}

/// Number of plays of `s` whose release group has release type `ty`.
pub open spec fn count_type(s: Seq<Play>, ty: Seq<char>, ix: CatalogIndex) -> int
    decreases s.len(),
{
    if s.len() == 0 {
        0
    } else {
        count_type(s.drop_last(), ty, ix) + if type_of(ix, s.last().group as int) == Some(ty) {
            1int
        } else {
            0int
        }
    }
}

proof fn lemma_count_type_le(s: Seq<Play>, ty: Seq<char>, ix: CatalogIndex)
    ensures
        0 <= count_type(s, ty, ix) <= s.len(),
    decreases s.len(),
{
    if s.len() > 0 {
        lemma_count_type_le(s.drop_last(), ty, ix);
    }
}

pub open spec fn has_type(t: Seq<(String, u64)>, ty: Seq<char>) -> bool {
    exists|i: int| 0 <= i < t.len() && t[i].0@ == ty
}

/// `t` lists each release type of the plays `s` once, with its number of plays.
pub open spec fn type_table(t: Seq<(String, u64)>, s: Seq<Play>, ix: CatalogIndex) -> bool {
    &&& forall|i: int| 0 <= i < t.len() ==> (#[trigger] t[i]).1 == count_type(s, t[i].0@, ix) && t[i].1 >= 1
    &&& forall|i: int, j: int| 0 <= i < t.len() && 0 <= j < t.len() && i != j ==> t[i].0@ != t[j].0@
    &&& forall|k: int|
        0 <= k < s.len() && (#[trigger] type_of(ix, s[k].group as int)).is_some() ==> has_type(t, type_of(ix, s[k].group as int).unwrap())
}

pub open spec fn type_items(t: Seq<(String, u64)>) -> Seq<(u64, u64)> {
    t.map_values(|e: (String, u64)| (e.1, 0u64))
}

proof fn lemma_count_type_zero(s: Seq<Play>, ty: Seq<char>, t: Seq<(String, u64)>, ix: CatalogIndex)
    requires
        forall|k: int|
            0 <= k < s.len() && (#[trigger] type_of(ix, s[k].group as int)).is_some() ==> has_type(t, type_of(ix, s[k].group as int).unwrap()),
        !has_type(t, ty),
    ensures
        count_type(s, ty, ix) == 0,
    decreases s.len(),
{
    if s.len() > 0 {
        let init = s.drop_last();
        assert forall|k: int|
            0 <= k < init.len() && (#[trigger] type_of(ix, init[k].group as int)).is_some() implies has_type(t, type_of(ix, init[k].group as int).unwrap()) by {
            assert(init[k] == s[k]);
        }
        lemma_count_type_zero(init, ty, t, ix);
        assert(s.last() == s[s.len() - 1]);
    }
}

/// Plays per release type, most played first (ties: first played first).
pub fn type_distribution(plays: &Vec<Play>, ix: &CatalogIndex) -> (r: Vec<(String, u64)>)
    requires
        plays@.len() <= MAX_PLAYS,
    ensures
        exists|t: Seq<(String, u64)>, order: Seq<usize>|
            {
                &&& type_table(t, plays@, *ix)
                &&& is_ranking(type_items(t), t.len() as int, order)
                &&& r@.len() == order.len()
                &&& forall|i: int| 0 <= i < r@.len() ==> (#[trigger] r@[i]).0@ == t[order[i] as int].0@ && r@[i].1 == t[order[i] as int].1
            },
        forall|i: int, j: int| 0 <= i < j < r@.len() ==> r@[i].1 >= r@[j].1,
{
    let mut t: Vec<(String, u64)> = Vec::new();
    let mut i: usize = 0;
    while i < plays.len()
        invariant
            i <= plays@.len(),
            plays@.len() <= MAX_PLAYS,
            type_table(t@, plays@.take(i as int), *ix),
        decreases plays@.len() - i,
    {
        let ghost pre = plays@.take(i as int);
        let ghost post = plays@.take(i as int + 1);
        let p = &plays[i];
        assert(post.drop_last() == pre && post.last() == *p);
        let g = p.group;
        if g < ix.groups.len() {
            if let Some(ty) = &ix.groups[g].release_type {
                let ghost t0 = t@;
                let mut j: usize = 0;
                while j < t.len() && t[j].0 != *ty
                    invariant
                        j <= t@.len(),
                        forall|k: int| 0 <= k < j ==> t@[k].0@ != ty@,
                    decreases t@.len() - j,
                {
                    j = j + 1;
                }
                proof {
                    assert forall|a: int| 0 <= a < t0.len() implies count_type(pre, t0[a].0@, *ix) <= pre.len() by {
                        lemma_count_type_le(pre, t0[a].0@, *ix);
                    }
                }
                if j < t.len() {
                    let name = t[j].0.clone();
                    let c = t[j].1;
                    t.set(j, (name, c + 1));
                    assert forall|k: int|
                        0 <= k < post.len() && (#[trigger] type_of(*ix, post[k].group as int)).is_some() implies has_type(t@, type_of(*ix, post[k].group as int).unwrap()) by {
                        if k < pre.len() {
                            assert(post[k] == pre[k]);
                            let a = choose|a: int| 0 <= a < t0.len() && t0[a].0@ == type_of(*ix, pre[k].group as int).unwrap();
                            assert(t@[a].0@ == t0[a].0@);
                        } else {
                            assert(t@[j as int].0@ == ty@);
                        }
                    }
                } else {
                    assert(!has_type(t0, ty@));
                    proof {
                        lemma_count_type_zero(pre, ty@, t0, *ix);
                    }
                    t.push((ty.clone(), 1));
                    assert forall|k: int|
                        0 <= k < post.len() && (#[trigger] type_of(*ix, post[k].group as int)).is_some() implies has_type(t@, type_of(*ix, post[k].group as int).unwrap()) by {
                        if k < pre.len() {
                            assert(post[k] == pre[k]);
                            let a = choose|a: int| 0 <= a < t0.len() && t0[a].0@ == type_of(*ix, pre[k].group as int).unwrap();
                            assert(t@[a] == t0[a]);
                        } else {
                            assert(t@[t0.len() as int].0@ == ty@);
                        }
                    }
                }
            } else {
                assert forall|k: int|
                    0 <= k < post.len() && (#[trigger] type_of(*ix, post[k].group as int)).is_some() implies has_type(t@, type_of(*ix, post[k].group as int).unwrap()) by {
                    assert(post[k] == pre[k]);
                }
            }
        } else {
            assert forall|k: int|
                0 <= k < post.len() && (#[trigger] type_of(*ix, post[k].group as int)).is_some() implies has_type(t@, type_of(*ix, post[k].group as int).unwrap()) by {
                assert(post[k] == pre[k]);
            }
        }
        i = i + 1;
    }
    assert(plays@.take(i as int) == plays@);
    let mut items: Vec<(u64, u64)> = Vec::new();
    let mut k: usize = 0;
    while k < t.len()
        invariant
            k <= t@.len(),
            items@ == type_items(t@).take(k as int),
        decreases t@.len() - k,
    {
        items.push((t[k].1, 0));
        assert(items@ =~= type_items(t@).take(k as int + 1));
        k = k + 1;
    }
    assert(items@ =~= type_items(t@));
    let order = rank_top(&items, t.len());
    let mut r: Vec<(String, u64)> = Vec::new();
    let mut j: usize = 0;
    while j < order.len()
        invariant
            items@ == type_items(t@),
            is_ranking(items@, t@.len() as int, order@),
            j <= order@.len(),
            r@.len() == j,
            forall|a: int| 0 <= a < j ==> (#[trigger] r@[a]).0@ == t@[order@[a] as int].0@ && r@[a].1 == t@[order@[a] as int].1,
        decreases order@.len() - j,
    {
        assert(is_next(items@, order@.take(j as int), order@[j as int] as int));
        let e = &t[order[j]];
        r.push((e.0.clone(), e.1));
        j = j + 1;
    }
    proof {
        assert forall|a: int, b: int| 0 <= a < b < r@.len() implies r@[a].1 >= r@[b].1 by {
            lemma_ranking_ordered(items@, t@.len() as int, order@, a, b);
            assert(is_next(items@, order@.take(a), order@[a] as int));
            assert(is_next(items@, order@.take(b), order@[b] as int));
        }
    }
    r
}

} // verus!
