//! Plain data records of the listening service and of the curated catalog.
use vstd::prelude::*;

verus! {

/// A page of listening history as the listening service returns it.
#[derive(Clone, Debug, PartialEq)]
pub struct ListenBrainzResponse {
    pub payload: Payload,
}

/// The answer of the service's "playing now" endpoint.
#[derive(Clone, Debug, PartialEq)]
pub struct PlayingNowResponse {
    pub payload: PlayingNowPayload,
}

#[derive(Clone, Debug, PartialEq)]
pub struct PlayingNowPayload {
    pub listens: Vec<PlayingNowListen>,
}

/// A live play event, not yet settled into the history.
#[derive(Clone, Debug, PartialEq)]
pub struct PlayingNowListen {
    pub track_metadata: TrackMetadata,
    pub playing_now: bool,
}

/// A release group as described by the music metadata service.
#[derive(Clone, Debug)]
pub struct MBReleaseGroupResponse {
    pub releases: Vec<MBRelease>,
}

#[derive(Clone, Debug)]
pub struct MBRelease {
    pub track_count: usize,
}

#[derive(Clone, Debug, PartialEq)]
pub struct Payload {
    pub count: i64,
    pub latest_listen_ts: i64,
    pub listens: Vec<Listen>,
}

/// One recorded play event ("scrobble").
#[derive(Clone, Debug, PartialEq)]
pub struct Listen {
    pub inserted_at: i64,
    /// Unix timestamp (seconds) at which the track was played.
    pub listened_at: i64,
    pub recording_msid: String,
    pub track_metadata: TrackMetadata,
    pub user_name: String,
}

#[derive(Clone, Debug, PartialEq)]
pub struct TrackMetadata {
    pub artist_name: String,
    pub track_name: String,
    pub release_name: Option<String>,
    pub additional_info: Option<AdditionalInfo>,
    pub mbid_mapping: Option<MbidMapping>,
}

/// Identifiers that the service mapped onto the play event.
#[derive(Clone, Debug, PartialEq)]
pub struct MbidMapping {
    pub recording_name: Option<String>,
    pub recording_mbid: Option<String>,
    pub artists: Option<Vec<MappedArtist>>,
    pub release_name: Option<String>,
}

#[derive(Clone, Debug, PartialEq)]
pub struct MappedArtist {
    pub artist_credit_name: String,
}

/// Identifiers and facts that the submitting player attached to the event.
#[derive(Clone, Debug, PartialEq)]
pub struct AdditionalInfo {
    pub artist_names: Option<Vec<String>>,
    pub recording_mbid: Option<String>,
    pub duration_ms: Option<i64>,
    pub release_group_mbid: Option<String>,
}

/// The catalog in its compact form: recording id to release-group id, and
/// release-group id to (title, artwork, track count, release type).
#[derive(Clone, Debug)]
pub struct BowieLookup {
    pub recordings: Vec<(String, String)>,
    pub release_groups: Vec<(String, (String, Option<String>, usize, Option<String>))>,
}

/// The curated catalog: release groups keyed by their id, in catalog order.
#[derive(Clone, Debug)]
pub struct BowieDatabase {
    pub release_groups: Vec<(String, BowieReleaseGroup)>,
}

#[derive(Clone, Debug)]
pub struct BowieReleaseGroup {
    pub title: String,
    pub release_type: Option<String>,
    pub track_count: usize,
    pub image_url: Option<String>,
    pub tracks: Vec<BowieTrack>,
}

/// A catalog recording.
#[derive(Clone, Debug)]
pub struct BowieTrack {
    /// Recording identifier.
    pub id: String,
    pub title: String,
    pub duration_ms: i64,
}

/// A stored mapping from a submitted recording to its canonical names.
#[derive(Clone, Debug)]
pub struct CanonicalMapping {
    pub msid: String,
    pub recording_name: String,
    pub artist_name: String,
}

/// A stored track count of a release group.
#[derive(Clone, Debug)]
pub struct AlbumMetadata {
    pub release_group_mbid: String,
    pub track_count: usize,
}

} // verus!
