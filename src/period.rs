//! Period accumulators: one classified play applied to the tally of the
//! listening day or calendar month that holds it.
use vstd::prelude::*;

verus! {

/// Most plays the engine aggregates in one computation.
pub const MAX_PLAYS: u64 = 1_000_000_000;

/// Longest duration of one play in milliseconds.
pub const MAX_PLAY_MS: u64 = 4_294_967_295;

/// Most whole minutes of one play.
pub const MAX_PLAY_MINUTES: u64 = 71_582;

/// A classified play event, resolved against the catalog.
pub struct Play {
    /// Unix timestamp in seconds.
    pub ts: i64,
    /// Key of the listening day (its start timestamp).
    pub day: i64,
    /// Key of the calendar month (see `calendar::month_key`).
    pub month: i64,
    /// UTC hour of the day.
    pub hour: u32,
    pub recording: String,
    /// Position of the release group in the catalog index.
    pub group: usize,
    /// Display track name.
    pub track: String,
    pub ms: u64,
    /// Position of the event in the input log.
    pub pos: usize,
}

pub open spec fn minutes_of(p: Play) -> int {
    p.ms as int / 60_000
}

pub open spec fn play_ok(p: Play) -> bool {
    p.ms <= MAX_PLAY_MS
}

/// Tally of one album within a period: group, plays, minutes, and the
/// distinct recordings heard, in order of first hearing.
pub struct AlbumTally {
    pub group: usize,
    pub plays: u64,
    pub minutes: u64,
    pub recordings: Vec<String>,
}

/// Tally of one track name within a period: name, plays, minutes, the
/// latest time it was played, and the album of its first play.
pub struct TrackTally {
    pub name: String,
    pub plays: u64,
    pub minutes: u64,
    pub last_seen: i64,
    pub group: usize,
}

pub open spec fn album_view(a: AlbumTally) -> (int, int, int, Seq<Seq<char>>) {
    (a.group as int, a.plays as int, a.minutes as int, a.recordings@.map_values(|s: String| s@))
}

pub open spec fn track_view(t: TrackTally) -> (Seq<char>, int, int, int, int) {
    (t.name@, t.plays as int, t.minutes as int, t.last_seen as int, t.group as int)
}

pub open spec fn add_unique(s: Seq<Seq<char>>, r: Seq<char>) -> Seq<Seq<char>> {
    if s.contains(r) {
        s
    } else {
        s.push(r)
    }
}

pub open spec fn album_slot(t: Seq<(int, int, int, Seq<Seq<char>>)>, g: int) -> Option<int> {
    if exists|i: int| 0 <= i < t.len() && t[i].0 == g {
        Some(choose|i: int| 0 <= i < t.len() && t[i].0 == g)
    } else {
        None
    }
}

pub open spec fn track_slot(t: Seq<(Seq<char>, int, int, int, int)>, name: Seq<char>) -> Option<int> {
    if exists|i: int| 0 <= i < t.len() && t[i].0 == name {
        Some(choose|i: int| 0 <= i < t.len() && t[i].0 == name)
    } else {
        None
    }
}

/// The album tallies after one more play: the play's album counts one more
/// play, its minutes, and its recording if not yet heard; a new album is
/// appended.
pub open spec fn album_step(t: Seq<(int, int, int, Seq<Seq<char>>)>, p: Play) -> Seq<(int, int, int, Seq<Seq<char>>)> {
    match album_slot(t, p.group as int) {
        Some(i) => t.update(i, (t[i].0, t[i].1 + 1, t[i].2 + minutes_of(p), add_unique(t[i].3, p.recording@))),
        None => t.push((p.group as int, 1, minutes_of(p), seq![p.recording@])),
    }
}

/// The track tallies after one more play.
pub open spec fn track_step(t: Seq<(Seq<char>, int, int, int, int)>, p: Play) -> Seq<(Seq<char>, int, int, int, int)> {
    match track_slot(t, p.track@) {
        Some(i) => t.update(
            i,
            (t[i].0, t[i].1 + 1, t[i].2 + minutes_of(p), if p.ts > t[i].3 {
                p.ts as int
            } else {
                t[i].3
            }, t[i].4),
        ),
        None => t.push((p.track@, 1, minutes_of(p), p.ts as int, p.group as int)),
    }
}

/// Album tallies of a sequence of plays, albums in order of first play.
pub open spec fn album_tally(s: Seq<Play>) -> Seq<(int, int, int, Seq<Seq<char>>)>
    decreases s.len(),
{
    if s.len() == 0 {
        Seq::empty()
    } else {
        album_step(album_tally(s.drop_last()), s.last())
    }
}

/// Track tallies of a sequence of plays, tracks in order of first play.
pub open spec fn track_tally(s: Seq<Play>) -> Seq<(Seq<char>, int, int, int, int)>
    decreases s.len(),
{
    if s.len() == 0 {
        Seq::empty()
    } else {
        track_step(track_tally(s.drop_last()), s.last())
    }
}

/// Total milliseconds of a sequence of plays.
pub open spec fn total_ms(s: Seq<Play>) -> int
    decreases s.len(),
{
    if s.len() == 0 {
        0
    } else {
        total_ms(s.drop_last()) + s.last().ms
    }
}

/// Accumulator of one period (a listening day or a calendar month).
pub struct PeriodWork {
    pub scrobbles: u64,
    pub ms: u64,
    pub albums: Vec<AlbumTally>,
    pub tracks: Vec<TrackTally>,
}

impl PeriodWork {
    pub open spec fn albums_view(&self) -> Seq<(int, int, int, Seq<Seq<char>>)> {
        self.albums@.map_values(|a: AlbumTally| album_view(a))
    }

    pub open spec fn tracks_view(&self) -> Seq<(Seq<char>, int, int, int, int)> {
        self.tracks@.map_values(|t: TrackTally| track_view(t))
    }

    /// The accumulator holds exactly the tallies of the plays `s`.
    pub open spec fn holds(&self, s: Seq<Play>) -> bool {
        &&& self.scrobbles == s.len()
        &&& self.ms == total_ms(s)
        &&& self.albums_view() == album_tally(s)
        &&& self.tracks_view() == track_tally(s)
    }

    /// Bounds that keep every counter of the accumulator in range.
    pub open spec fn bounded(&self) -> bool {
        &&& self.scrobbles <= MAX_PLAYS
        &&& self.ms <= self.scrobbles * MAX_PLAY_MS
        &&& self.albums@.len() <= self.scrobbles
        &&& forall|i: int| 0 <= i < self.albums@.len() ==> {
            &&& #[trigger] self.albums@[i].plays <= self.scrobbles
            &&& self.albums@[i].minutes <= self.scrobbles * MAX_PLAY_MINUTES
            &&& self.albums@[i].recordings@.len() <= self.albums@[i].plays
        }
        &&& forall|i: int| 0 <= i < self.tracks@.len() ==> {
            &&& #[trigger] self.tracks@[i].plays <= self.scrobbles
            &&& self.tracks@[i].minutes <= self.scrobbles * MAX_PLAY_MINUTES
        }
        &&& forall|i: int, j: int|
            0 <= i < self.albums@.len() && 0 <= j < self.albums@.len() && i != j ==> self.albums@[i].group
                != self.albums@[j].group
        &&& forall|i: int, j: int|
            0 <= i < self.tracks@.len() && 0 <= j < self.tracks@.len() && i != j ==> self.tracks@[i].name@
                != self.tracks@[j].name@
        &&& forall|i: int| 0 <= i < self.albums@.len() ==> self.albums@[i].recordings@.map_values(|s: String| s@).no_duplicates()
    }

    /// An empty accumulator.
    pub fn new() -> (w: PeriodWork)
        ensures
            w.holds(Seq::empty()),
            w.bounded(),
    {
        let w = PeriodWork { scrobbles: 0, ms: 0, albums: Vec::new(), tracks: Vec::new() };
        assert(w.albums_view() =~= Seq::empty());
        assert(w.tracks_view() =~= Seq::empty());
        w
    }

    /// Adds one play to the accumulator.
    pub fn apply(&mut self, p: &Play)
        requires
            old(self).bounded(),
            old(self).scrobbles < MAX_PLAYS,
            play_ok(*p),
        ensures
            final(self).bounded(),
            final(self).scrobbles == old(self).scrobbles + 1,
            final(self).ms == old(self).ms + p.ms,
            final(self).albums_view() == album_step(old(self).albums_view(), *p),
            final(self).tracks_view() == track_step(old(self).tracks_view(), *p),
    {
        let minutes = p.ms / 60_000;
        self.scrobbles = self.scrobbles + 1;
        self.ms = self.ms + p.ms;
        self.apply_album(p, minutes);
        self.apply_track(p, minutes);
    }

    fn apply_album(&mut self, p: &Play, minutes: u64)
        requires
            minutes == minutes_of(*p),
            minutes <= MAX_PLAY_MINUTES,
            1 <= old(self).scrobbles <= MAX_PLAYS,
            old(self).albums@.len() < old(self).scrobbles,
            forall|i: int| 0 <= i < old(self).albums@.len() ==> {
                &&& #[trigger] old(self).albums@[i].plays < old(self).scrobbles
                &&& old(self).albums@[i].minutes <= (old(self).scrobbles - 1) * MAX_PLAY_MINUTES
                &&& old(self).albums@[i].recordings@.len() <= old(self).albums@[i].plays
            },
            forall|i: int, j: int|
                0 <= i < old(self).albums@.len() && 0 <= j < old(self).albums@.len() && i != j
                    ==> old(self).albums@[i].group != old(self).albums@[j].group,
            forall|i: int| 0 <= i < old(self).albums@.len() ==> old(self).albums@[i].recordings@.map_values(|s: String| s@).no_duplicates(),
        ensures
            final(self).scrobbles == old(self).scrobbles,
            final(self).ms == old(self).ms,
            final(self).tracks == old(self).tracks,
            final(self).albums_view() == album_step(old(self).albums_view(), *p),
            final(self).albums@.len() <= final(self).scrobbles,
            forall|i: int| 0 <= i < final(self).albums@.len() ==> {
                &&& #[trigger] final(self).albums@[i].plays <= final(self).scrobbles
                &&& final(self).albums@[i].minutes <= final(self).scrobbles * MAX_PLAY_MINUTES
                &&& final(self).albums@[i].recordings@.len() <= final(self).albums@[i].plays
            },
            forall|i: int, j: int|
                0 <= i < final(self).albums@.len() && 0 <= j < final(self).albums@.len() && i != j
                    ==> final(self).albums@[i].group != final(self).albums@[j].group,
            forall|i: int| 0 <= i < final(self).albums@.len() ==> final(self).albums@[i].recordings@.map_values(|s: String| s@).no_duplicates(),
    {
        let ghost t0 = self.albums_view();
        let mut i: usize = 0;
        while i < self.albums.len() && self.albums[i].group != p.group
            invariant
                i <= self.albums@.len(),
                forall|k: int| 0 <= k < i ==> self.albums@[k].group != p.group,
            decreases self.albums@.len() - i,
        {
            i = i + 1;
        }
        if i < self.albums.len() {
            assert(t0[i as int].0 == p.group);
            assert(album_slot(t0, p.group as int) == Some(i as int)) by {
                let c = choose|c: int| 0 <= c < t0.len() && t0[c].0 == p.group;
                assert(self.albums@[c].group == p.group);
            }
            assert(old(self).albums@[i as int].plays < old(self).scrobbles);
            assert(old(self).albums@[i as int].minutes <= (old(self).scrobbles - 1) * MAX_PLAY_MINUTES);
            assert(old(self).albums@[i as int].recordings@.len() <= old(self).albums@[i as int].plays);
            let mut a = self.albums.remove(i);
            let ghost recs0 = a.recordings@.map_values(|s: String| s@);
            let mut j: usize = 0;
            while j < a.recordings.len() && a.recordings[j] != p.recording
                invariant
                    j <= a.recordings@.len(),
                    forall|k: int| 0 <= k < j ==> a.recordings@[k]@ != p.recording@,
                decreases a.recordings@.len() - j,
            {
                j = j + 1;
            }
            if j < a.recordings.len() {
                assert(recs0[j as int] == p.recording@);
                assert(recs0.contains(p.recording@));
            } else {
                assert(!recs0.contains(p.recording@));
                a.recordings.push(p.recording.clone());
                assert(a.recordings@.map_values(|s: String| s@) =~= recs0.push(p.recording@));
            }
            a.plays = a.plays + 1;
            a.minutes = a.minutes + minutes;
            self.albums.insert(i, a);
            assert(self.albums_view() =~= album_step(t0, *p));
            assert forall|c: int| 0 <= c < self.albums@.len() implies {
                &&& #[trigger] self.albums@[c].plays <= self.scrobbles
                &&& self.albums@[c].minutes <= self.scrobbles * MAX_PLAY_MINUTES
                &&& self.albums@[c].recordings@.len() <= self.albums@[c].plays
            } by {
                if c != i {
                    assert(self.albums@[c] == old(self).albums@[c]);
                }
            }
        } else {
            assert(album_slot(t0, p.group as int).is_none());
            let mut recs: Vec<String> = Vec::new();
            recs.push(p.recording.clone());
            self.albums.push(AlbumTally { group: p.group, plays: 1, minutes, recordings: recs });
            assert(recs@.map_values(|s: String| s@) =~= seq![p.recording@]);
            assert(self.albums_view() =~= album_step(t0, *p));
        }
    }

    fn apply_track(&mut self, p: &Play, minutes: u64)
        requires
            minutes == minutes_of(*p),
            minutes <= MAX_PLAY_MINUTES,
            1 <= old(self).scrobbles <= MAX_PLAYS,
            forall|i: int| 0 <= i < old(self).tracks@.len() ==> {
                &&& #[trigger] old(self).tracks@[i].plays < old(self).scrobbles
                &&& old(self).tracks@[i].minutes <= (old(self).scrobbles - 1) * MAX_PLAY_MINUTES
            },
            forall|i: int, j: int|
                0 <= i < old(self).tracks@.len() && 0 <= j < old(self).tracks@.len() && i != j
                    ==> old(self).tracks@[i].name@ != old(self).tracks@[j].name@,
        ensures
            final(self).scrobbles == old(self).scrobbles,
            final(self).ms == old(self).ms,
            final(self).albums == old(self).albums,
            final(self).tracks_view() == track_step(old(self).tracks_view(), *p),
            forall|i: int| 0 <= i < final(self).tracks@.len() ==> {
                &&& #[trigger] final(self).tracks@[i].plays <= final(self).scrobbles
                &&& final(self).tracks@[i].minutes <= final(self).scrobbles * MAX_PLAY_MINUTES
            },
            forall|i: int, j: int|
                0 <= i < final(self).tracks@.len() && 0 <= j < final(self).tracks@.len() && i != j
                    ==> final(self).tracks@[i].name@ != final(self).tracks@[j].name@,
    {
        let ghost t0 = self.tracks_view();
        let mut i: usize = 0;
        while i < self.tracks.len() && self.tracks[i].name != p.track
            invariant
                i <= self.tracks@.len(),
                forall|k: int| 0 <= k < i ==> self.tracks@[k].name@ != p.track@,
            decreases self.tracks@.len() - i,
        {
            i = i + 1;
        }
        if i < self.tracks.len() {
            assert(t0[i as int].0 == p.track@);
            assert(track_slot(t0, p.track@) == Some(i as int)) by {
                let c = choose|c: int| 0 <= c < t0.len() && t0[c].0 == p.track@;
                assert(self.tracks@[c].name@ == p.track@);
            }
            assert(old(self).tracks@[i as int].plays < old(self).scrobbles);
            assert(old(self).tracks@[i as int].minutes <= (old(self).scrobbles - 1) * MAX_PLAY_MINUTES);
            let mut t = self.tracks.remove(i);
            t.plays = t.plays + 1;
            t.minutes = t.minutes + minutes;
            if p.ts > t.last_seen {
                t.last_seen = p.ts;
            }
            self.tracks.insert(i, t);
            assert(self.tracks_view() =~= track_step(t0, *p));
            assert forall|c: int| 0 <= c < self.tracks@.len() implies {
                &&& #[trigger] self.tracks@[c].plays <= self.scrobbles
                &&& self.tracks@[c].minutes <= self.scrobbles * MAX_PLAY_MINUTES
            } by {
                if c != i {
                    assert(self.tracks@[c] == old(self).tracks@[c]);
                } else {
                    assert(self.tracks@[c].plays == old(self).tracks@[c].plays + 1);
                }
            }
        } else {
            assert(track_slot(t0, p.track@).is_none());
            self.tracks.push(TrackTally { name: p.track.clone(), plays: 1, minutes, last_seen: p.ts, group: p.group });
            assert(self.tracks_view() =~= track_step(t0, *p));
            assert forall|c: int| 0 <= c < self.tracks@.len() implies {
                &&& #[trigger] self.tracks@[c].plays <= self.scrobbles
                &&& self.tracks@[c].minutes <= self.scrobbles * MAX_PLAY_MINUTES
            } by {
                if c < old(self).tracks@.len() {
                    assert(self.tracks@[c] == old(self).tracks@[c]);
                }
            }
        }
    }
}

/// The tallies of one period, under its key.
pub struct Bucket {
    pub key: i64,
    pub work: PeriodWork,
}

/// The period key of a play: its calendar month or its listening day.
pub open spec fn key_of(p: Play, by_month: bool) -> i64 {
    if by_month {
        p.month
    } else {
        p.day
    }
}

/// The plays of `s` that fall in the period with key `k`, in order.
pub open spec fn with_key(s: Seq<Play>, by_month: bool, k: i64) -> Seq<Play>
    decreases s.len(),
{
    if s.len() == 0 {
        s
    } else if key_of(s.last(), by_month) == k {
        with_key(s.drop_last(), by_month, k).push(s.last())
    } else {
        with_key(s.drop_last(), by_month, k)
    }
}

pub proof fn lemma_with_key_len(s: Seq<Play>, by_month: bool, k: i64)
    ensures
        with_key(s, by_month, k).len() <= s.len(),
    decreases s.len(),
{
    if s.len() > 0 {
        lemma_with_key_len(s.drop_last(), by_month, k);
    }
}

/// Every play of a period comes from `s` and carries the period's key.
pub proof fn lemma_with_key_members(s: Seq<Play>, by_month: bool, k: i64)
    ensures
        forall|i: int|
            0 <= i < with_key(s, by_month, k).len() ==> s.contains(#[trigger] with_key(s, by_month, k)[i])
                && key_of(with_key(s, by_month, k)[i], by_month) == k,
    decreases s.len(),
{
    if s.len() > 0 {
        lemma_with_key_members(s.drop_last(), by_month, k);
        let w = with_key(s, by_month, k);
        assert forall|i: int| 0 <= i < w.len() implies s.contains(#[trigger] w[i]) && key_of(w[i], by_month) == k by {
            let w0 = with_key(s.drop_last(), by_month, k);
            if i < w0.len() {
                assert(w[i] == w0[i]);
                let j = choose|j: int| 0 <= j < s.drop_last().len() && s.drop_last()[j] == w0[i];
                assert(s[j] == w[i]);
            } else {
                assert(w[i] == s.last());
                assert(s[s.len() - 1] == w[i]);
            }
        }
    }
}

proof fn lemma_holds_push(before: PeriodWork, after: PeriodWork, s: Seq<Play>, p: Play)
    requires
        before.holds(s),
        after.scrobbles == before.scrobbles + 1,
        after.ms == before.ms + p.ms,
        after.albums_view() == album_step(before.albums_view(), p),
        after.tracks_view() == track_step(before.tracks_view(), p),
    ensures
        after.holds(s.push(p)),
{
    assert(s.push(p).drop_last() == s);
}

/// `r` holds one bucket per period of the plays `s`, each with exactly the
/// tallies of that period's plays.
pub open spec fn buckets_of(r: Seq<Bucket>, s: Seq<Play>, by_month: bool) -> bool {
    &&& forall|b: int|
        0 <= b < r.len() ==> {
            &&& (#[trigger] r[b]).work.holds(with_key(s, by_month, r[b].key))
            &&& r[b].work.bounded()
            &&& r[b].work.scrobbles >= 1
        }
    &&& forall|b: int, c: int| 0 <= b < r.len() && 0 <= c < r.len() && b != c ==> r[b].key != r[c].key
    &&& forall|k: i64|
        #[trigger] with_key(s, by_month, k).len() > 0 ==> exists|b: int| 0 <= b < r.len() && r[b].key == k
}

fn add_play(r: &mut Vec<Bucket>, p: &Play, by_month: bool, Ghost(pre): Ghost<Seq<Play>>)
    requires
        pre.len() < MAX_PLAYS,
        play_ok(*p),
        buckets_of(old(r)@, pre, by_month),
    ensures
        buckets_of(final(r)@, pre.push(*p), by_month),
{
    let k = if by_month { p.month } else { p.day };
    let ghost post = pre.push(*p);
    assert(post.drop_last() == pre && post.last() == *p);
    assert forall|k2: i64| k2 != k implies with_key(post, by_month, k2) == with_key(pre, by_month, k2) by {}
    assert(with_key(post, by_month, k) == with_key(pre, by_month, k).push(*p));
    let ghost r0 = r@;
    let mut b: usize = 0;
    while b < r.len() && r[b].key != k
        invariant
            b <= r@.len(),
            forall|c: int| 0 <= c < b ==> r@[c].key != k,
        decreases r@.len() - b,
    {
        b = b + 1;
    }
    if b < r.len() {
        let mut bucket = r.remove(b);
        proof {
            lemma_with_key_len(pre, by_month, k);
        }
        let ghost w0 = bucket.work;
        bucket.work.apply(p);
        proof {
            lemma_holds_push(w0, bucket.work, with_key(pre, by_month, k), *p);
        }
        r.insert(b, bucket);
        assert forall|c: int| 0 <= c < r@.len() implies (#[trigger] r@[c]).work.holds(
            with_key(post, by_month, r@[c].key),
        ) by {
            if c != b {
                assert(r@[c] == r0[c]);
            }
        }
        assert forall|k2: i64|
            #[trigger] with_key(post, by_month, k2).len() > 0 implies exists|c: int| 0 <= c < r@.len() && r@[c].key == k2 by {
            if k2 != k {
                let c = choose|c: int| 0 <= c < r0.len() && r0[c].key == k2;
                assert(r@[c] == r0[c] || c == b);
            } else {
                assert(r@[b as int].key == k);
            }
        }
    } else {
        let mut work = PeriodWork::new();
        let ghost w0 = work;
        work.apply(p);
        proof {
            assert(with_key(pre, by_month, k).len() == 0) by {
                if with_key(pre, by_month, k).len() > 0 {
                    let c = choose|c: int| 0 <= c < r0.len() && r0[c].key == k;
                }
            }
            assert(with_key(pre, by_month, k) == Seq::<Play>::empty());
            lemma_holds_push(w0, work, Seq::empty(), *p);
        }
        r.push(Bucket { key: k, work });
        assert forall|c: int| 0 <= c < r@.len() implies (#[trigger] r@[c]).work.holds(
            with_key(post, by_month, r@[c].key),
        ) by {
            if c < r0.len() {
                assert(r@[c] == r0[c]);
            }
        }
        assert forall|k2: i64|
            #[trigger] with_key(post, by_month, k2).len() > 0 implies exists|c: int| 0 <= c < r@.len() && r@[c].key == k2 by {
            if k2 != k {
                let c = choose|c: int| 0 <= c < r0.len() && r0[c].key == k2;
                assert(r@[c] == r0[c]);
            } else {
                assert(r@[r0.len() as int].key == k);
            }
        }
    }
}

/// Splits plays into periods: one bucket per distinct key, each holding the
/// tallies of exactly the plays with that key.
pub fn group_by_period(plays: &Vec<Play>, by_month: bool) -> (r: Vec<Bucket>)
    requires
        plays@.len() <= MAX_PLAYS,
        forall|i: int| 0 <= i < plays@.len() ==> play_ok(#[trigger] plays@[i]),
    ensures
        buckets_of(r@, plays@, by_month),
{
    let mut r: Vec<Bucket> = Vec::new();
    let mut i: usize = 0;
    while i < plays.len()
        invariant
            i <= plays@.len(),
            plays@.len() <= MAX_PLAYS,
            forall|j: int| 0 <= j < plays@.len() ==> play_ok(#[trigger] plays@[j]),
            buckets_of(r@, plays@.take(i as int), by_month),
        decreases plays@.len() - i,
    {
        assert(plays@.take(i as int + 1) == plays@.take(i as int).push(plays@[i as int]));
        add_play(&mut r, &plays[i], by_month, Ghost(plays@.take(i as int)));
        i = i + 1;
    }
    assert(plays@.take(i as int) == plays@);
    r
}

} // verus!

verus! {

/// Sum over the buckets `r` of the number of plays of `s` in each bucket's period.
pub open spec fn bucket_total(r: Seq<Bucket>, s: Seq<Play>, by_month: bool) -> int
    decreases r.len(),
{
    if r.len() == 0 {
        0
    } else {
        bucket_total(r.drop_last(), s, by_month) + with_key(s, by_month, r.last().key).len()
    }
}

/// Number of buckets of `r` with key `k`.
pub open spec fn key_count(r: Seq<Bucket>, k: i64) -> int
    decreases r.len(),
{
    if r.len() == 0 {
        0
    } else {
        key_count(r.drop_last(), k) + if r.last().key == k {
            1int
        } else {
            0int
        }
    }
}

proof fn lemma_total_push(r: Seq<Bucket>, s: Seq<Play>, by_month: bool, p: Play)
    ensures
        bucket_total(r, s.push(p), by_month) == bucket_total(r, s, by_month) + key_count(r, key_of(p, by_month)),
    decreases r.len(),
{
    assert(s.push(p).drop_last() == s);
    if r.len() > 0 {
        lemma_total_push(r.drop_last(), s, by_month, p);
    }
}

proof fn lemma_key_count_one(r: Seq<Bucket>, k: i64)
    requires
        forall|b: int, c: int| 0 <= b < r.len() && 0 <= c < r.len() && b != c ==> r[b].key != r[c].key,
        exists|b: int| 0 <= b < r.len() && r[b].key == k,
    ensures
        key_count(r, k) == 1,
    decreases r.len(),
{
    let init = r.drop_last();
    if r.last().key == k {
        assert(key_count(init, k) == 0) by {
            lemma_key_count_zero(init, k);
        }
    } else {
        let b = choose|b: int| 0 <= b < r.len() && r[b].key == k;
        assert(init[b] == r[b]);
        lemma_key_count_one(init, k);
    }
}

proof fn lemma_key_count_zero(r: Seq<Bucket>, k: i64)
    requires
        forall|b: int| 0 <= b < r.len() ==> r[b].key != k,
    ensures
        key_count(r, k) == 0,
    decreases r.len(),
{
    if r.len() > 0 {
        lemma_key_count_zero(r.drop_last(), k);
    }
}

/// The periods partition the plays: summed over the buckets, the plays of
/// each period are all the plays.
pub proof fn lemma_partition(r: Seq<Bucket>, s: Seq<Play>, by_month: bool)
    requires
        forall|b: int, c: int| 0 <= b < r.len() && 0 <= c < r.len() && b != c ==> r[b].key != r[c].key,
        forall|k: i64| #[trigger] with_key(s, by_month, k).len() > 0 ==> exists|b: int| 0 <= b < r.len() && r[b].key == k,
    ensures
        bucket_total(r, s, by_month) == s.len(),
    decreases s.len(),
{
    if s.len() == 0 {
        lemma_total_empty(r, s, by_month);
    } else {
        let init = s.drop_last();
        let p = s.last();
        assert(init.push(p) == s);
        assert forall|k: i64| #[trigger] with_key(init, by_month, k).len() > 0 implies exists|b: int| 0 <= b < r.len() && r[b].key == k by {
            assert(with_key(s, by_month, k).len() >= with_key(init, by_month, k).len());
        }
        lemma_partition(r, init, by_month);
        lemma_total_push(r, init, by_month, p);
        assert(with_key(s, by_month, key_of(p, by_month)).len() > 0);
        lemma_key_count_one(r, key_of(p, by_month));
    }
}

proof fn lemma_total_empty(r: Seq<Bucket>, s: Seq<Play>, by_month: bool)
    requires
        s.len() == 0,
    ensures
        bucket_total(r, s, by_month) == 0,
    decreases r.len(),
{
    if r.len() > 0 {
        lemma_total_empty(r.drop_last(), s, by_month);
    }
}

/// Each bucket holds at least one play, so there are no more buckets than plays.
pub proof fn lemma_bucket_count(r: Seq<Bucket>, s: Seq<Play>, by_month: bool)
    requires
        forall|b: int| 0 <= b < r.len() ==> with_key(s, by_month, (#[trigger] r[b]).key).len() >= 1,
    ensures
        bucket_total(r, s, by_month) >= r.len(),
    decreases r.len(),
{
    if r.len() > 0 {
        let init = r.drop_last();
        assert forall|b: int| 0 <= b < init.len() implies with_key(s, by_month, (#[trigger] init[b]).key).len() >= 1 by {
            assert(init[b] == r[b]);
        }
        lemma_bucket_count(init, s, by_month);
        assert(with_key(s, by_month, r[r.len() - 1].key).len() >= 1);
    }
}

} // verus!
