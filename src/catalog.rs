//! The catalog index: recording id to release group, release groups, and the
//! lower-cased track-name index used for fallback matching.
use crate::models::{BowieDatabase, BowieLookup, BowieReleaseGroup, BowieTrack};
use vstd::prelude::*;

verus! {

/// The lower-case form of a string, as `str::to_lowercase` computes it.
pub uninterp spec fn lower_of(s: Seq<char>) -> Seq<char>;

/// Relies on `str::to_lowercase`: the lower-case form depends on the
/// characters alone.
#[verifier::external_body]
fn lowercase(s: &str) -> (r: String)
    ensures
        r@ == lower_of(s@),
{
    s.to_lowercase()
}

/// The lower-case form of `s`, the normalization of track names.
pub fn normalize_name(s: &String) -> (r: String)
    ensures
        r@ == lower_of(s@),
{
    lowercase(s.as_str())
}

pub open spec fn opt_view(o: Option<String>) -> Option<Seq<char>> {
    match o {
        Some(s) => Some(s@),
        None => None,
    }
}

pub fn clone_opt(o: &Option<String>) -> (r: Option<String>)
    ensures
        r == *o,
{
    match o {
        Some(s) => Some(s.clone()),
        None => None,
    }
}

/// What the index keeps of a release group.
pub struct ReleaseGroupInfo {
    pub id: String,
    pub title: String,
    pub image_url: Option<String>,
    pub track_count: usize,
    pub release_type: Option<String>,
}

/// One entry of the name index: a catalog recording under its lower-cased title.
pub struct NameCandidate {
    pub name: String,
    /// The recording's title as the catalog writes it.
    pub title: String,
    pub recording_id: String,
    /// Position of the recording's release group in `CatalogIndex::groups`.
    pub group: usize,
}

/// The index over one catalog load.
pub struct CatalogIndex {
    pub groups: Vec<ReleaseGroupInfo>,
    /// Recording id and the position of its release group; each id once.
    pub recordings: Vec<(String, usize)>,
    /// Every catalog recording in catalog order, under its lower-cased title.
    pub names: Vec<NameCandidate>,
}

/// Position of the entry for recording `r` in a recording table, if any.
pub open spec fn entry_of(recs: Seq<(String, usize)>, r: Seq<char>) -> Option<int> {
    if exists|i: int| 0 <= i < recs.len() && recs[i].0@ == r {
        Some(choose|i: int| 0 <= i < recs.len() && recs[i].0@ == r)
    } else {
        None
    }
}

/// Release group (by position) of recording `r` in a recording table.
pub open spec fn group_in(recs: Seq<(String, usize)>, r: Seq<char>) -> Option<int> {
    match entry_of(recs, r) {
        Some(i) => Some(recs[i].1 as int),
        None => None,
    }
}

pub open spec fn unique_ids(recs: Seq<(String, usize)>) -> bool {
    forall|i: int, j: int|
        0 <= i < recs.len() && 0 <= j < recs.len() && i != j ==> recs[i].0@ != recs[j].0@
}

/// Whether release group `rg` lists recording `r`.
pub open spec fn lists_recording(rg: BowieReleaseGroup, r: Seq<char>) -> bool {
    exists|j: int| 0 <= j < rg.tracks@.len() && rg.tracks@[j].id@ == r
}

/// The last release group (by position) of a catalog that lists recording
/// `r`: where a recording is listed twice, the later listing wins.
pub open spec fn last_group_listing(groups: Seq<(String, BowieReleaseGroup)>, r: Seq<char>) -> Option<int>
    decreases groups.len(),
{
    if groups.len() == 0 {
        None
    } else if lists_recording(groups.last().1, r) {
        Some(groups.len() - 1)
    } else {
        last_group_listing(groups.drop_last(), r)
    }
}

pub open spec fn candidate_view(c: NameCandidate) -> (Seq<char>, Seq<char>, Seq<char>, int) {
    (c.name@, c.title@, c.recording_id@, c.group as int)
}

/// Name-index entries of the recordings of one release group.
pub open spec fn track_names(tracks: Seq<BowieTrack>, g: int) -> Seq<(Seq<char>, Seq<char>, Seq<char>, int)> {
    tracks.map_values(|t: BowieTrack| (lower_of(t.title@), t.title@, t.id@, g))
}

/// Name-index entries of a whole catalog, in catalog order.
pub open spec fn names_of(groups: Seq<(String, BowieReleaseGroup)>) -> Seq<(Seq<char>, Seq<char>, Seq<char>, int)>
    decreases groups.len(),
{
    if groups.len() == 0 {
        Seq::empty()
    } else {
        names_of(groups.drop_last()) + track_names(groups.last().1.tracks@, groups.len() - 1)
    }
}

/// The index keeps release group `rg` (with id `id`) as `info`.
pub open spec fn keeps_group(info: ReleaseGroupInfo, id: String, rg: BowieReleaseGroup) -> bool {
    &&& info.id@ == id@
    &&& info.title@ == rg.title@
    &&& info.image_url == rg.image_url
    &&& info.track_count == rg.track_count
    &&& info.release_type == rg.release_type
}

/// Position of `id` in a recording table.
fn find_entry(recs: &Vec<(String, usize)>, id: &String) -> (r: Option<usize>)
    ensures
        match r {
            Some(i) => i < recs@.len() && recs@[i as int].0@ == id@,
            None => forall|i: int| 0 <= i < recs@.len() ==> recs@[i].0@ != id@,
        },
{
    let mut i: usize = 0;
    while i < recs.len()
        invariant
            i <= recs@.len(),
            forall|k: int| 0 <= k < i ==> recs@[k].0@ != id@,
        decreases recs@.len() - i,
    {
        if recs[i].0 == *id {
            return Some(i);
        }
        i = i + 1;
    }
    None
}

pub proof fn lemma_entry_at(recs: Seq<(String, usize)>, i: int)
    requires
        unique_ids(recs),
        0 <= i < recs.len(),
    ensures
        entry_of(recs, recs[i].0@) == Some(i),
{
}

/// Record that recording `id` belongs to group `g`, replacing an earlier entry.
fn set_group(recs: &mut Vec<(String, usize)>, id: &String, g: usize)
    requires
        unique_ids(old(recs)@),
    ensures
        unique_ids(final(recs)@),
        forall|r: Seq<char>|
            group_in(final(recs)@, r) == if r == id@ {
                Some(g as int)
            } else {
                group_in(old(recs)@, r)
            },
        forall|i: int| 0 <= i < final(recs)@.len() ==> (final(recs)@[i].1 == g
            || exists|k: int| 0 <= k < old(recs)@.len() && old(recs)@[k].1 == final(recs)@[i].1),
{
    let ghost before = recs@;
    match find_entry(recs, id) {
        Some(i) => {
            recs.set(i, (id.clone(), g));
            assert forall|r: Seq<char>|
                group_in(recs@, r) == if r == id@ {
                    Some(g as int)
                } else {
                    group_in(before, r)
                } by {
                if r == id@ {
                    lemma_entry_at(recs@, i as int);
                } else {
                    if exists|k: int| 0 <= k < before.len() && before[k].0@ == r {
                        let k = choose|k: int| 0 <= k < before.len() && before[k].0@ == r;
                        lemma_entry_at(before, k);
                        lemma_entry_at(recs@, k);
                    }
                }
            }
            assert forall|k: int| 0 <= k < recs@.len() && k != i implies (recs@[k].1 == g
                || exists|m: int| 0 <= m < before.len() && before[m].1 == recs@[k].1) by {
                assert(before[k].1 == recs@[k].1);
            }
        },
        None => {
            recs.push((id.clone(), g));
            let ghost n = before.len() as int;
            assert forall|r: Seq<char>|
                group_in(recs@, r) == if r == id@ {
                    Some(g as int)
                } else {
                    group_in(before, r)
                } by {
                if r == id@ {
                    lemma_entry_at(recs@, n);
                } else {
                    if exists|k: int| 0 <= k < before.len() && before[k].0@ == r {
                        let k = choose|k: int| 0 <= k < before.len() && before[k].0@ == r;
                        lemma_entry_at(before, k);
                        lemma_entry_at(recs@, k);
                    } else {
                        assert(!exists|k: int| 0 <= k < recs@.len() && recs@[k].0@ == r);
                    }
                }
            }
            assert forall|k: int| 0 <= k < recs@.len() && k != n implies (recs@[k].1 == g
                || exists|m: int| 0 <= m < before.len() && before[m].1 == recs@[k].1) by {
                assert(before[k].1 == recs@[k].1);
            }
        },
    }
}

/// Position of the first release group with id `id` in a compact catalog.
pub open spec fn first_with_id(groups: Seq<(String, (String, Option<String>, usize, Option<String>))>, id: Seq<char>) -> Option<int> {
    if exists|i: int| 0 <= i < groups.len() && groups[i].0@ == id {
        Some(
            choose|i: int|
                0 <= i < groups.len() && groups[i].0@ == id && forall|j: int| 0 <= j < i ==> groups[j].0@ != id,
        )
    } else {
        None
    }
}

/// Release group (by position) of recording `r` in a compact catalog: the
/// last entry for `r` whose release group exists wins.
pub open spec fn lookup_group(
    recs: Seq<(String, String)>,
    groups: Seq<(String, (String, Option<String>, usize, Option<String>))>,
    r: Seq<char>,
) -> Option<int>
    decreases recs.len(),
{
    if recs.len() == 0 {
        None
    } else if recs.last().0@ == r && first_with_id(groups, recs.last().1@).is_some() {
        first_with_id(groups, recs.last().1@)
    } else {
        lookup_group(recs.drop_last(), groups, r)
    }
}

/// The index keeps compact group `g` (with id `id`) as `info`.
pub open spec fn keeps_compact_group(info: ReleaseGroupInfo, id: String, g: (String, Option<String>, usize, Option<String>)) -> bool {
    &&& info.id@ == id@
    &&& info.title@ == g.0@
    &&& info.image_url == g.1
    &&& info.track_count == g.2
    &&& info.release_type == g.3
}

/// Position of the first group with id `id`.
fn find_group(groups: &Vec<ReleaseGroupInfo>, id: &String, Ghost(src): Ghost<Seq<(String, (String, Option<String>, usize, Option<String>))>>) -> (r: Option<usize>)
    requires
        groups@.len() == src.len(),
        forall|g: int| 0 <= g < src.len() ==> #[trigger] groups@[g].id@ == src[g].0@,
    ensures
        match r {
            Some(i) => first_with_id(src, id@) == Some(i as int) && i < groups@.len(),
            None => first_with_id(src, id@).is_none(),
        },
{
    let mut i: usize = 0;
    while i < groups.len() && groups[i].id != *id
        invariant
            i <= groups@.len(),
            groups@.len() == src.len(),
            forall|g: int| 0 <= g < src.len() ==> #[trigger] groups@[g].id@ == src[g].0@,
            forall|j: int| 0 <= j < i ==> src[j].0@ != id@,
        decreases groups@.len() - i,
    {
        assert(groups@[i as int].id@ == src[i as int].0@);
        i = i + 1;
    }
    if i < groups.len() {
        assert(groups@[i as int].id@ == src[i as int].0@);
        let ghost c = choose|c: int|
            0 <= c < src.len() && src[c].0@ == id@ && forall|j: int| 0 <= j < c ==> src[j].0@ != id@;
        assert(c == i as int) by {
            if c < i {
            } else if c > i {
                assert(src[i as int].0@ == id@);
            }
        }
        Some(i)
    } else {
        assert forall|j: int| 0 <= j < src.len() implies src[j].0@ != id@ by {}
        None
    }
}

impl CatalogIndex {
    /// Well-formedness: recording ids are unique and every group position is valid.
    pub open spec fn wf(&self) -> bool {
        &&& unique_ids(self.recordings@)
        &&& forall|i: int|
            0 <= i < self.recordings@.len() ==> (self.recordings@[i].1 as int) < self.groups@.len()
        &&& forall|i: int| 0 <= i < self.names@.len() ==> (self.names@[i].group as int) < self.groups@.len()
    }

    /// Release group (by position) that the index assigns to recording `r`.
    pub open spec fn group_of(&self, r: Seq<char>) -> Option<int> {
        group_in(self.recordings@, r)
    }

    /// Builds the index of a catalog in one pass over its recordings.
    pub fn build(db: &BowieDatabase) -> (ix: CatalogIndex)
        ensures
            ix.wf(),
            ix.groups@.len() == db.release_groups@.len(),
            forall|g: int|
                0 <= g < ix.groups@.len() ==> keeps_group(
                    #[trigger] ix.groups@[g],
                    db.release_groups@[g].0,
                    db.release_groups@[g].1,
                ),
            forall|r: Seq<char>| ix.group_of(r) == last_group_listing(db.release_groups@, r),
            ix.names@.map_values(|c: NameCandidate| candidate_view(c)) == names_of(db.release_groups@),
    {
        let mut groups: Vec<ReleaseGroupInfo> = Vec::new();
        let mut recordings: Vec<(String, usize)> = Vec::new();
        let mut names: Vec<NameCandidate> = Vec::new();
        let ghost all = db.release_groups@;
        let mut gi: usize = 0;
        while gi < db.release_groups.len()
            invariant
                gi <= all.len(),
                all == db.release_groups@,
                groups@.len() == gi,
                forall|g: int| 0 <= g < gi ==> keeps_group(#[trigger] groups@[g], all[g].0, all[g].1),
                unique_ids(recordings@),
                forall|i: int| 0 <= i < recordings@.len() ==> (recordings@[i].1 as int) < gi,
                forall|i: int| 0 <= i < names@.len() ==> (names@[i].group as int) < gi,
                forall|r: Seq<char>| group_in(recordings@, r) == last_group_listing(all.take(gi as int), r),
                names@.map_values(|c: NameCandidate| candidate_view(c)) == names_of(all.take(gi as int)),
            decreases all.len() - gi,
        {
            let id = &db.release_groups[gi].0;
            let rg = &db.release_groups[gi].1;
            groups.push(ReleaseGroupInfo {
                id: id.clone(),
                title: rg.title.clone(),
                image_url: clone_opt(&rg.image_url),
                track_count: rg.track_count,
                release_type: clone_opt(&rg.release_type),
            });
            let ghost recs0 = recordings@;
            let ghost names0 = names@.map_values(|c: NameCandidate| candidate_view(c));
            let mut j: usize = 0;
            while j < rg.tracks.len()
                invariant
                    gi < all.len(),
                    all == db.release_groups@,
                    *rg == all[gi as int].1,
                    j <= rg.tracks@.len(),
                    unique_ids(recordings@),
                    forall|i: int| 0 <= i < recordings@.len() ==> (recordings@[i].1 as int) <= gi,
                    forall|i: int| 0 <= i < names@.len() ==> (names@[i].group as int) <= gi,
                    forall|r: Seq<char>|
                        group_in(recordings@, r) == if exists|k: int| 0 <= k < j && rg.tracks@[k].id@ == r {
                            Some(gi as int)
                        } else {
                            group_in(recs0, r)
                        },
                    names@.map_values(|c: NameCandidate| candidate_view(c)) == names0 + track_names(
                        rg.tracks@.take(j as int),
                        gi as int,
                    ),
                decreases rg.tracks@.len() - j,
            {
                let track = &rg.tracks[j];
                let ghost recs1 = recordings@;
                set_group(&mut recordings, &track.id, gi);
                let ghost before_names = names@;
                names.push(NameCandidate {
                    name: normalize_name(&track.title),
                    title: track.title.clone(),
                    recording_id: track.id.clone(),
                    group: gi,
                });
                assert(rg.tracks@.take(j as int + 1) == rg.tracks@.take(j as int).push(rg.tracks@[j as int]));
                assert(names@.map_values(|c: NameCandidate| candidate_view(c)) =~= before_names.map_values(
                    |c: NameCandidate| candidate_view(c),
                ).push(candidate_view(names@[names@.len() - 1])));
                assert(track_names(rg.tracks@.take(j as int + 1), gi as int) =~= track_names(
                    rg.tracks@.take(j as int),
                    gi as int,
                ).push(candidate_view(names@[names@.len() - 1])));
                assert forall|i: int| 0 <= i < recordings@.len() implies (recordings@[i].1 as int) <= gi by {
                    if recordings@[i].1 != gi {
                        let k = choose|k: int| 0 <= k < recs1.len() && recs1[k].1 == recordings@[i].1;
                    }
                }
                j = j + 1;
            }
            proof {
                assert(all.take(gi as int + 1).drop_last() == all.take(gi as int));
                assert(all.take(gi as int + 1).last() == all[gi as int]);
                assert(rg.tracks@.take(j as int) == rg.tracks@);
                assert forall|r: Seq<char>|
                    group_in(recordings@, r) == last_group_listing(all.take(gi as int + 1), r) by {
                    if lists_recording(*rg, r) {
                        let k = choose|k: int| 0 <= k < rg.tracks@.len() && rg.tracks@[k].id@ == r;
                        assert(0 <= k < j && rg.tracks@[k].id@ == r);
                    }
                }
            }
            gi = gi + 1;
        }
        proof {
            assert(all.take(gi as int) == all);
        }
        CatalogIndex { groups, recordings, names }
    }

    /// Builds the index of a catalog in its compact form. Entries whose
    /// release group is missing are left out; the name index stays empty,
    /// since the compact form carries no track titles.
    pub fn from_lookup(lk: &BowieLookup) -> (ix: CatalogIndex)
        ensures
            ix.wf(),
            ix.groups@.len() == lk.release_groups@.len(),
            forall|g: int|
                0 <= g < ix.groups@.len() ==> keeps_compact_group(
                    #[trigger] ix.groups@[g],
                    lk.release_groups@[g].0,
                    lk.release_groups@[g].1,
                ),
            forall|r: Seq<char>| ix.group_of(r) == lookup_group(lk.recordings@, lk.release_groups@, r),
            ix.names@.len() == 0,
    {
        let ghost src = lk.release_groups@;
        let mut groups: Vec<ReleaseGroupInfo> = Vec::new();
        let mut gi: usize = 0;
        while gi < lk.release_groups.len()
            invariant
                gi <= src.len(),
                src == lk.release_groups@,
                groups@.len() == gi,
                forall|g: int| 0 <= g < gi ==> keeps_compact_group(#[trigger] groups@[g], src[g].0, src[g].1),
            decreases src.len() - gi,
        {
            let (id, g) = &lk.release_groups[gi];
            groups.push(ReleaseGroupInfo {
                id: id.clone(),
                title: g.0.clone(),
                image_url: clone_opt(&g.1),
                track_count: g.2,
                release_type: clone_opt(&g.3),
            });
            gi = gi + 1;
        }
        assert forall|g: int| 0 <= g < src.len() implies #[trigger] groups@[g].id@ == src[g].0@ by {
            assert(keeps_compact_group(groups@[g], src[g].0, src[g].1));
        }
        let ghost recs_src = lk.recordings@;
        let mut recordings: Vec<(String, usize)> = Vec::new();
        let mut i: usize = 0;
        while i < lk.recordings.len()
            invariant
                i <= recs_src.len(),
                recs_src == lk.recordings@,
                src == lk.release_groups@,
                groups@.len() == src.len(),
                forall|g: int| 0 <= g < src.len() ==> #[trigger] groups@[g].id@ == src[g].0@,
                unique_ids(recordings@),
                forall|k: int| 0 <= k < recordings@.len() ==> (recordings@[k].1 as int) < groups@.len(),
                forall|r: Seq<char>| group_in(recordings@, r) == lookup_group(recs_src.take(i as int), src, r),
            decreases recs_src.len() - i,
        {
            let (rec, gid) = &lk.recordings[i];
            let ghost pre = recs_src.take(i as int);
            assert(recs_src.take(i as int + 1).drop_last() == pre);
            assert(recs_src.take(i as int + 1).last() == recs_src[i as int]);
            match find_group(&groups, gid, Ghost(src)) {
                Some(g) => {
                    let ghost recs0 = recordings@;
                    set_group(&mut recordings, rec, g);
                    assert forall|k: int| 0 <= k < recordings@.len() implies (recordings@[k].1 as int) < groups@.len() by {
                        if recordings@[k].1 != g {
                            let m = choose|m: int| 0 <= m < recs0.len() && recs0[m].1 == recordings@[k].1;
                        }
                    }
                },
                None => {},
            }
            i = i + 1;
        }
        assert(recs_src.take(i as int) == recs_src);
        CatalogIndex { groups, recordings, names: Vec::new() }
    }
}

} // verus!
