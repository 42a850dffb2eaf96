//! Catalog membership of play events, and the now-playing matcher.
use crate::catalog::{normalize_name, lower_of, CatalogIndex};
use crate::models::{CanonicalMapping, Listen, TrackMetadata};
use vstd::prelude::*;

verus! {

/// Duration assumed for an event whose payload carries none (3.5 minutes).
pub const DEFAULT_DURATION_MS: u64 = 210_000;

/// Longest duration taken from a payload; a larger or negative value is
/// treated as missing.
pub const MAX_DURATION_MS: i64 = 4_294_967_295;

/// The event's recording id: the mapped one first, the submitted one second.
pub open spec fn resolved_recording(meta: TrackMetadata) -> Option<Seq<char>> {
    match meta.mbid_mapping {
        Some(m) if m.recording_mbid.is_some() => Some(m.recording_mbid.unwrap()@),
        _ => match meta.additional_info {
            Some(info) => match info.recording_mbid {
                Some(r) => Some(r@),
                None => None,
            },
            None => None,
        },
    }
}

/// The event's duration in milliseconds, with the 3.5-minute fallback.
pub open spec fn resolved_duration(meta: TrackMetadata) -> int {
    match meta.additional_info {
        Some(info) => match info.duration_ms {
            Some(d) if 0 <= d <= MAX_DURATION_MS => d as int,
            _ => DEFAULT_DURATION_MS as int,
        },
        None => DEFAULT_DURATION_MS as int,
    }
}

/// Release group (by position) of a classified event; `None` when the event
/// has no recording id or the catalog does not hold it.
pub open spec fn classified_group(meta: TrackMetadata, ix: CatalogIndex) -> Option<int> {
    match resolved_recording(meta) {
        Some(r) => ix.group_of(r),
        None => None,
    }
}

/// The event's recording id, as `resolved_recording` defines it.
pub fn recording_id(meta: &TrackMetadata) -> (r: Option<String>)
    ensures
        match r {
            Some(s) => resolved_recording(*meta) == Some(s@),
            None => resolved_recording(*meta).is_none(),
        },
{
    if let Some(m) = &meta.mbid_mapping {
        if let Some(id) = &m.recording_mbid {
            return Some(id.clone());
        }
    }
    match &meta.additional_info {
        Some(info) => match &info.recording_mbid {
            Some(id) => Some(id.clone()),
            None => None,
        },
        None => None,
    }
}

/// The event's duration in milliseconds.
pub fn duration_ms(meta: &TrackMetadata) -> (r: u64)
    ensures
        r as int == resolved_duration(*meta),
        r <= MAX_DURATION_MS,
{
    match &meta.additional_info {
        Some(info) => match info.duration_ms {
            Some(d) => {
                if 0 <= d && d <= MAX_DURATION_MS {
                    d as u64
                } else {
                    DEFAULT_DURATION_MS
                }
            },
            None => DEFAULT_DURATION_MS,
        },
        None => DEFAULT_DURATION_MS,
    }
}

/// Position of the release group of recording `id` in the index.
pub fn group_position(ix: &CatalogIndex, id: &String) -> (r: Option<usize>)
    requires
        ix.wf(),
    ensures
        match r {
            Some(g) => ix.group_of(id@) == Some(g as int) && g < ix.groups@.len(),
            None => ix.group_of(id@).is_none(),
        },
{
    let mut i: usize = 0;
    while i < ix.recordings.len()
        invariant
            ix.wf(),
            i <= ix.recordings@.len(),
            forall|k: int| 0 <= k < i ==> ix.recordings@[k].0@ != id@,
        decreases ix.recordings@.len() - i,
    {
        if ix.recordings[i].0 == *id {
            proof {
                crate::catalog::lemma_entry_at(ix.recordings@, i as int);
            }
            return Some(ix.recordings[i].1);
        }
        i = i + 1;
    }
    None
}

/// Strict classification: the recording id and the position of its release
/// group, or `None` when the event has no id or the catalog lacks it.
pub fn classify_position(meta: &TrackMetadata, ix: &CatalogIndex) -> (r: Option<(String, usize)>)
    requires
        ix.wf(),
    ensures
        match r {
            Some((id, g)) => resolved_recording(*meta) == Some(id@) && classified_group(*meta, *ix)
                == Some(g as int) && g < ix.groups@.len(),
            None => classified_group(*meta, *ix).is_none(),
        },
{
    match recording_id(meta) {
        Some(id) => match group_position(ix, &id) {
            Some(g) => Some((id, g)),
            None => None,
        },
        None => None,
    }
}

/// Strict classification of a play event against the catalog: the event's
/// recording id and the id of its release group when the catalog holds the
/// recording; no textual fallback.
pub fn classify(listen: &Listen, ix: &CatalogIndex) -> (r: Option<(String, String)>)
    requires
        ix.wf(),
    ensures
        match classified_group(listen.track_metadata, *ix) {
            Some(g) => r.is_some() && Some(r.unwrap().0@) == resolved_recording(listen.track_metadata)
                && r.unwrap().1@ == ix.groups@[g].id@,
            None => r.is_none(),
        },
{
    match classify_position(&listen.track_metadata, ix) {
        Some((id, g)) => Some((id, ix.groups[g].id.clone())),
        None => None,
    }
}

/// Candidate `i` of the name index carries the name `name`.
pub open spec fn is_candidate(ix: CatalogIndex, name: Seq<char>, i: int) -> bool {
    0 <= i < ix.names@.len() && ix.names@[i].name@ == name
}

/// Candidate `i` carries `name` and belongs to the release group with id `h`.
pub open spec fn is_hinted_candidate(ix: CatalogIndex, name: Seq<char>, h: Seq<char>, i: int) -> bool {
    is_candidate(ix, name, i) && ix.groups@[ix.names@[i].group as int].id@ == h
}

/// The name-index entry that the fallback picks for `name`: the first one in
/// the hinted release group if there is such, else the first one.
pub open spec fn picks_candidate(ix: CatalogIndex, name: Seq<char>, hint: Option<Seq<char>>, k: int) -> bool {
    if hint.is_some() && exists|i: int| is_hinted_candidate(ix, name, hint.unwrap(), i) {
        is_hinted_candidate(ix, name, hint.unwrap(), k) && forall|j: int|
            0 <= j < k ==> !is_hinted_candidate(ix, name, hint.unwrap(), j)
    } else {
        is_candidate(ix, name, k) && forall|j: int| 0 <= j < k ==> !is_candidate(ix, name, j)
    }
}

/// Position in the name index of the candidate for `name`, preferring the
/// release group whose id is `hint`.
pub fn pick_candidate(ix: &CatalogIndex, name: &String, hint: Option<&String>) -> (r: Option<usize>)
    requires
        ix.wf(),
    ensures
        match r {
            Some(k) => picks_candidate(*ix, name@, opt_ref_view(hint), k as int),
            None => forall|i: int| !is_candidate(*ix, name@, i),
        },
{
    let mut first: Option<usize> = None;
    let mut i: usize = 0;
    while i < ix.names.len()
        invariant
            ix.wf(),
            i <= ix.names@.len(),
            match first {
                Some(k) => is_candidate(*ix, name@, k as int) && k < i && forall|j: int|
                    0 <= j < k ==> !is_candidate(*ix, name@, j),
                None => forall|j: int| 0 <= j < i ==> !is_candidate(*ix, name@, j),
            },
            hint.is_some() ==> forall|j: int| 0 <= j < i ==> !is_hinted_candidate(*ix, name@, hint.unwrap()@, j),
        decreases ix.names@.len() - i,
    {
        if ix.names[i].name == *name {
            if first.is_none() {
                first = Some(i);
            }
            match hint {
                Some(h) => {
                    if ix.groups[ix.names[i].group].id == *h {
                        assert(is_hinted_candidate(*ix, name@, h@, i as int));
                        return Some(i);
                    }
                },
                None => {},
            }
        }
        i = i + 1;
    }
    first
}

pub open spec fn opt_ref_view(o: Option<&String>) -> Option<Seq<char>> {
    match o {
        Some(s) => Some(s@),
        None => None,
    }
}

/// Resolves a live event to (recording id, release-group id): by recording
/// id when the catalog holds it, else by lower-cased track name, preferring
/// the release group whose id is `album_hint`.
pub fn match_now_playing(meta: &TrackMetadata, ix: &CatalogIndex, album_hint: Option<&String>) -> (r: Option<(String, String)>)
    requires
        ix.wf(),
    ensures
        match classified_group(*meta, *ix) {
            Some(g) => r.is_some() && Some(r.unwrap().0@) == resolved_recording(*meta)
                && r.unwrap().1@ == ix.groups@[g].id@,
            None => match r {
                Some((rec, rg)) => exists|k: int|
                    picks_candidate(*ix, lower_of(meta.track_name@), opt_ref_view(album_hint), k)
                        && rec@ == ix.names@[k].recording_id@ && rg@ == ix.groups@[ix.names@[k].group as int].id@,
                None => forall|i: int| !is_candidate(*ix, lower_of(meta.track_name@), i),
            },
        },
{
    if let Some((id, g)) = classify_position(meta, ix) {
        return Some((id, ix.groups[g].id.clone()));
    }
    let name = normalize_name(&meta.track_name);
    match pick_candidate(ix, &name, album_hint) {
        Some(k) => {
            let c = &ix.names[k];
            Some((c.recording_id.clone(), ix.groups[c.group].id.clone()))
        },
        None => None,
    }
}

/// Whether a play event belongs to the catalog (strict classification).
pub fn is_bowie_meta(meta: &TrackMetadata, ix: &CatalogIndex) -> (r: bool)
    requires
        ix.wf(),
    ensures
        r == classified_group(*meta, *ix).is_some(),
{
    classify_position(meta, ix).is_some()
}

/// Whether a listen belongs to the catalog (strict classification).
pub fn is_bowie(listen: &Listen, ix: &CatalogIndex) -> (r: bool)
    requires
        ix.wf(),
    ensures
        r == classified_group(listen.track_metadata, *ix).is_some(),
{
    is_bowie_meta(&listen.track_metadata, ix)
}

/// The canonical names the service mapped onto a listen: present when the
/// mapping names the recording and at least one artist (the first is taken).
pub open spec fn canonical_of(l: Listen) -> Option<(Seq<char>, Seq<char>, Seq<char>)> {
    match l.track_metadata.mbid_mapping {
        Some(m) => match (m.recording_name, m.artists) {
            (Some(name), Some(artists)) => if artists@.len() > 0 {
                Some((l.recording_msid@, name@, artists@[0].artist_credit_name@))
            } else {
                None
            },
            _ => None,
        },
        None => None,
    }
}

/// The record that stores a listen's canonical names, if it has them.
pub fn canonical_mapping(listen: &Listen) -> (r: Option<CanonicalMapping>)
    ensures
        match r {
            Some(c) => canonical_of(*listen) == Some((c.msid@, c.recording_name@, c.artist_name@)),
            None => canonical_of(*listen).is_none(),
        },
{
    match &listen.track_metadata.mbid_mapping {
        Some(m) => match (&m.recording_name, &m.artists) {
            (Some(name), Some(artists)) => {
                if artists.len() > 0 {
                    Some(
                        CanonicalMapping {
                            msid: listen.recording_msid.clone(),
                            recording_name: name.clone(),
                            artist_name: artists[0].artist_credit_name.clone(),
                        },
                    )
                } else {
                    None
                }
            },
            _ => None,
        },
        None => None,
    }
}

/// `t` occurs in `s` starting at position `i`.
pub open spec fn occurs_at(s: Seq<char>, t: Seq<char>, i: int) -> bool {
    0 <= i && i + t.len() <= s.len() && s.subrange(i, i + t.len()) == t
}

/// `t` occurs somewhere in `s`.
pub open spec fn occurs_in(s: Seq<char>, t: Seq<char>) -> bool {
    exists|i: int| occurs_at(s, t, i)
}

/// Whether `t` occurs in `s`.
pub fn contains_text(s: &str, t: &str) -> (r: bool)
    ensures
        r == occurs_in(s@, t@),
{
    let n = s.unicode_len();
    let m = t.unicode_len();
    if m > n {
        assert forall|i: int| !occurs_at(s@, t@, i) by {}
        return false;
    }
    let mut i: usize = 0;
    while i <= n - m
        invariant
            n == s@.len(),
            m == t@.len(),
            m <= n,
            i <= n - m + 1,
            forall|k: int| 0 <= k < i ==> !occurs_at(s@, t@, k),
        decreases n - m + 1 - i,
    {
        let mut j: usize = 0;
        while j < m && s.get_char(i + j) == t.get_char(j)
            invariant
                n == s@.len(),
                m == t@.len(),
                i + m <= n,
                j <= m,
                forall|k: int| 0 <= k < j ==> s@[i + k] == t@[k],
            decreases m - j,
        {
            j = j + 1;
        }
        if j == m {
            assert(s@.subrange(i as int, i + m) =~= t@);
            assert(occurs_at(s@, t@, i as int));
            return true;
        }
        assert(!occurs_at(s@, t@, i as int)) by {
            if occurs_at(s@, t@, i as int) {
                assert(s@.subrange(i as int, i + m)[j as int] == t@[j as int]);
            }
        }
        i = i + 1;
    }
    assert forall|k: int| !occurs_at(s@, t@, k) by {
        if 0 <= k && k + m <= n {
            assert(k < i);
        }
    }
    false
}

/// The first mapped artist of an event, if any.
pub open spec fn mapped_artist(meta: TrackMetadata) -> Option<Seq<char>> {
    match meta.mbid_mapping {
        Some(m) => match m.artists {
            Some(a) => if a@.len() > 0 {
                Some(a@[0].artist_credit_name@)
            } else {
                None
            },
            None => None,
        },
        None => None,
    }
}

/// The heuristic membership test: the lower-cased first mapped artist, or
/// else the lower-cased submitted artist name, contains `needle`.
pub open spec fn text_match(meta: TrackMetadata, needle: Seq<char>) -> bool {
    (mapped_artist(meta).is_some() && occurs_in(lower_of(mapped_artist(meta).unwrap()), needle)) || occurs_in(
        lower_of(meta.artist_name@),
        needle,
    )
}

/// Whether the event's artist names contain `needle` (lower case).
pub fn matches_artist_text(meta: &TrackMetadata, needle: &String) -> (r: bool)
    ensures
        r == text_match(*meta, needle@),
{
    if let Some(m) = &meta.mbid_mapping {
        if let Some(a) = &m.artists {
            if a.len() > 0 {
                let low = normalize_name(&a[0].artist_credit_name);
                if contains_text(low.as_str(), needle.as_str()) {
                    return true;
                }
            }
        }
    }
    let low = normalize_name(&meta.artist_name);
    contains_text(low.as_str(), needle.as_str())
}

/// How catalog membership is decided.
pub enum Membership {
    /// By recording id against the catalog; events without one never match.
    Strict,
    /// By the artist names containing the given lower-case text; for logs
    /// read before a catalog exists.
    ArtistText(String),
}

/// Whether an event belongs to the tracked artist under the chosen test.
pub fn belongs(meta: &TrackMetadata, ix: &CatalogIndex, how: &Membership) -> (r: bool)
    requires
        ix.wf(),
    ensures
        r == match how {
            Membership::Strict => classified_group(*meta, *ix).is_some(),
            Membership::ArtistText(needle) => text_match(*meta, needle@),
        },
{
    match how {
        Membership::Strict => is_bowie_meta(meta, ix),
        Membership::ArtistText(needle) => matches_artist_text(meta, needle),
    }
}

} // verus!
