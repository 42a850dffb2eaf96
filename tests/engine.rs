use bowie_tracker::calendar::{date_label, day_start, format_month, hour, month_abbrev, year_month};
use bowie_tracker::catalog::{normalize_name, CatalogIndex};
use bowie_tracker::classify::{
    belongs, canonical_mapping, classify, contains_text, duration_ms, is_bowie, is_bowie_meta, match_now_playing,
    matches_artist_text, recording_id, Membership,
};
use bowie_tracker::dashboard::calculate_metrics;
use bowie_tracker::insights::format_relative_time;
use bowie_tracker::metrics::{parse_basis, Basis};
use bowie_tracker::models::{
    AdditionalInfo, BowieDatabase, BowieReleaseGroup, BowieTrack, Listen, MappedArtist, MbidMapping,
    TrackMetadata,
};
use bowie_tracker::stats::{Badge, RATIO_ONE};

const DAY: i64 = 86_400;
// 2024-03-10 00:00:00 UTC
const MIDNIGHT: i64 = 1_710_028_800;

fn track(id: &str, title: &str) -> BowieTrack {
    BowieTrack { id: id.to_string(), title: title.to_string(), duration_ms: 200_000 }
}

fn group(title: &str, count: usize, tracks: Vec<BowieTrack>) -> BowieReleaseGroup {
    BowieReleaseGroup {
        title: title.to_string(),
        release_type: Some("Album".to_string()),
        track_count: count,
        image_url: Some(format!("https://img/{}", title)),
        tracks,
    }
}

fn catalog() -> CatalogIndex {
    let db = BowieDatabase {
        release_groups: vec![
            ("rg-low".to_string(), group("Low", 2, vec![track("r1", "Warszawa"), track("r2", "Sound and Vision")])),
            ("rg-heroes".to_string(), group("Heroes", 3, vec![track("r3", "Heroes"), track("r4", "Blackout"), track("r5", "Warszawa")])),
        ],
    };
    CatalogIndex::build(&db)
}

fn meta(track_name: &str, rec: Option<&str>, duration: Option<i64>) -> TrackMetadata {
    TrackMetadata {
        artist_name: "David Bowie".to_string(),
        track_name: track_name.to_string(),
        release_name: None,
        additional_info: Some(AdditionalInfo {
            artist_names: None,
            recording_mbid: rec.map(|r| r.to_string()),
            duration_ms: duration,
            release_group_mbid: None,
        }),
        mbid_mapping: None,
    }
}

fn listen(ts: i64, track_name: &str, rec: Option<&str>, duration: Option<i64>) -> Listen {
    Listen {
        inserted_at: ts,
        listened_at: ts,
        recording_msid: format!("msid-{}", ts),
        track_metadata: meta(track_name, rec, duration),
        user_name: "u".to_string(),
    }
}

#[test]
fn day_start_boundaries() {
    assert_eq!(day_start(MIDNIGHT + 4 * 3_600 + 59 * 60 + 59), MIDNIGHT - DAY + 18_000);
    assert_eq!(day_start(MIDNIGHT + 5 * 3_600), MIDNIGHT + 18_000);
    assert_eq!(day_start(MIDNIGHT), MIDNIGHT - DAY + 18_000);
    assert_eq!(day_start(MIDNIGHT + DAY - 1), MIDNIGHT + 18_000);
    assert_eq!(hour(MIDNIGHT + 5 * 3_600 + 1), 5);
    assert_eq!(day_start(-1), -DAY + 18_000);
}

#[test]
fn calendar_fields_from_chrono() {
    assert_eq!(year_month(MIDNIGHT), (2024, 3));
    assert_eq!(date_label(MIDNIGHT + 18_000), "Sun, Mar 10");
    assert_eq!(format_month(3), "March");
    assert_eq!(format_month(13), "Unknown");
    assert_eq!(month_abbrev(12), "Dec");
}

#[test]
fn names_are_lowercased() {
    assert_eq!(normalize_name(&"Sound and VISION".to_string()), "sound and vision");
}

#[test]
fn index_maps_recordings_and_names() {
    let ix = catalog();
    assert_eq!(ix.groups.len(), 2);
    assert_eq!(ix.recordings.len(), 5);
    assert_eq!(ix.names.len(), 5);
    assert_eq!(ix.names[0].name, "warszawa");
    assert_eq!(ix.names[0].title, "Warszawa");
    assert_eq!(ix.groups[1].track_count, 3);
}

#[test]
fn later_listing_wins() {
    let db = BowieDatabase {
        release_groups: vec![
            ("a".to_string(), group("A", 1, vec![track("r1", "x")])),
            ("b".to_string(), group("B", 1, vec![track("r1", "x")])),
        ],
    };
    let ix = CatalogIndex::build(&db);
    assert_eq!(ix.recordings.len(), 1);
    let l = listen(MIDNIGHT, "x", Some("r1"), None);
    assert_eq!(classify(&l, &ix), Some(("r1".to_string(), "b".to_string())));
}

#[test]
fn classification_is_strict() {
    let ix = catalog();
    let hit = listen(MIDNIGHT, "Heroes", Some("r3"), None);
    assert_eq!(classify(&hit, &ix), Some(("r3".to_string(), "rg-heroes".to_string())));
    let no_id = listen(MIDNIGHT, "Heroes", None, None);
    assert_eq!(classify(&no_id, &ix), None);
    assert!(!is_bowie(&no_id, &ix));
    let unknown = listen(MIDNIGHT, "Heroes", Some("zz"), None);
    assert!(!is_bowie_meta(&unknown.track_metadata, &ix));
    assert!(is_bowie(&hit, &ix));
}

#[test]
fn mapped_recording_id_comes_first() {
    let mut m = meta("Heroes", Some("native"), Some(1_000));
    m.mbid_mapping = Some(MbidMapping {
        recording_name: Some("Heroes".to_string()),
        recording_mbid: Some("mapped".to_string()),
        artists: None,
        release_name: None,
    });
    assert_eq!(recording_id(&m), Some("mapped".to_string()));
    assert_eq!(duration_ms(&m), 1_000);
    assert_eq!(duration_ms(&meta("x", None, None)), 210_000);
    assert_eq!(duration_ms(&meta("x", None, Some(-5))), 210_000);
}

#[test]
fn now_playing_match_prefers_hint() {
    let ix = catalog();
    let live = meta("WARSZAWA", None, None);
    let first = match_now_playing(&live, &ix, None);
    assert_eq!(first, Some(("r1".to_string(), "rg-low".to_string())));
    let hint = "rg-heroes".to_string();
    let hinted = match_now_playing(&live, &ix, Some(&hint));
    assert_eq!(hinted, Some(("r5".to_string(), "rg-heroes".to_string())));
    let other = "nothing".to_string();
    assert_eq!(match_now_playing(&live, &ix, Some(&other)), first);
    let by_id = meta("whatever", Some("r4"), None);
    assert_eq!(match_now_playing(&by_id, &ix, Some(&hint)), Some(("r4".to_string(), "rg-heroes".to_string())));
    let none = meta("Space Oddity", None, None);
    assert_eq!(match_now_playing(&none, &ix, None), None);
}

#[test]
fn canonical_mapping_needs_name_and_artist() {
    let mut l = listen(MIDNIGHT, "Heroes", Some("r3"), None);
    assert!(canonical_mapping(&l).is_none());
    l.track_metadata.mbid_mapping = Some(MbidMapping {
        recording_name: Some("\"Heroes\"".to_string()),
        recording_mbid: None,
        artists: Some(vec![MappedArtist { artist_credit_name: "David Bowie".to_string() }]),
        release_name: None,
    });
    let c = canonical_mapping(&l).unwrap();
    assert_eq!(c.msid, format!("msid-{}", MIDNIGHT));
    assert_eq!(c.recording_name, "\"Heroes\"");
    assert_eq!(c.artist_name, "David Bowie");
}

#[test]
fn basis_names() {
    assert_eq!(parse_basis("YEAR"), Some(Basis::Year));
    assert_eq!(parse_basis("DAY"), Some(Basis::Day));
    assert_eq!(parse_basis("day"), None);
    assert_eq!(Badge::PeakSession.label(), "PEAK SESSION");
    assert_eq!(Badge::TopPeriod.label(), "TOP PERIOD");
}

#[test]
fn two_distinct_tracks_complete_an_album() {
    let ix = catalog();
    let d = MIDNIGHT + 10 * 3_600;
    let log = vec![
        listen(d + 3 * 60, "Warszawa", Some("r1"), Some(180_000)),
        listen(d + 5 * 60, "Sound and Vision", Some("r2"), Some(200_000)),
    ];
    let m = calculate_metrics(&log, d + 3_600, "DAY", &ix);
    assert_eq!(m.history.len(), 1);
    let day = &m.history[0];
    assert_eq!(day.scrobbles, 2);
    assert_eq!(day.minutes, 6);
    assert_eq!(day.albums_completed, RATIO_ONE as u128);
    assert_eq!(day.timestamp, MIDNIGHT + 18_000);
    assert_eq!(day.favorite_album, "Low");
    assert_eq!(day.top_albums[0].1, RATIO_ONE);
    assert_eq!(day.badge, Some(Badge::PeakSession));
    assert_eq!(m.counts.today, 2);
    assert_eq!(m.minutes.today, 6);
    assert_eq!(m.albums.today, RATIO_ONE as u128);
    assert_eq!(m.favorite_album_today, "Low");
}

#[test]
fn year_projection_rounds_rate() {
    let ix = catalog();
    let now = MIDNIGHT + 100 * DAY;
    let mut log = Vec::new();
    for i in 0..10 {
        log.push(listen(now - 600_000 + i * 1_000, "Heroes", Some("r3"), Some(3_600_000)));
    }
    let m = calculate_metrics(&log, now, "YEAR", &ix);
    assert_eq!(m.minutes.total, 600);
    assert_eq!(m.projections.year, 31_536);
    assert_eq!(m.projections.day, 86);
    let unknown = calculate_metrics(&log, now, "FORTNIGHT", &ix);
    assert_eq!(unknown.projections.year, 0);
    let week = calculate_metrics(&log, now, "WEEK", &ix);
    assert_eq!(week.projections.week, 600);
}

#[test]
fn history_scrobbles_add_up_to_total() {
    let ix = catalog();
    let now = MIDNIGHT + 3 * DAY;
    let log = vec![
        listen(MIDNIGHT + 3_600, "Warszawa", Some("r1"), None),
        listen(MIDNIGHT + 6 * 3_600, "Heroes", Some("r3"), None),
        listen(MIDNIGHT + DAY + 7 * 3_600, "Heroes", Some("r3"), None),
        listen(MIDNIGHT + DAY + 8 * 3_600, "Blackout", Some("r4"), None),
        listen(MIDNIGHT + 2 * DAY + 9 * 3_600, "Nope", None, None),
    ];
    let m = calculate_metrics(&log, now, "DAY", &ix);
    let sum: u64 = m.history.iter().map(|d| d.scrobbles).sum();
    assert_eq!(sum, m.counts.total);
    assert_eq!(m.counts.total, 4);
    assert_eq!(m.history.len(), 3);
    assert!(m.history[0].timestamp > m.history[1].timestamp);
    assert_eq!(m.history[0].scrobbles, 2);
}

#[test]
fn completion_chart_caps_at_one() {
    let ix = catalog();
    let d = MIDNIGHT + 10 * 3_600;
    let mut log = Vec::new();
    for i in 0..3 {
        log.push(listen(d + i * 300, "Warszawa", Some("r1"), None));
        log.push(listen(d + i * 300 + 60, "Sound and Vision", Some("r2"), None));
    }
    let db = BowieDatabase {
        release_groups: vec![("small".to_string(), group("Small", 1, vec![track("r1", "Warszawa"), track("r2", "Sound and Vision")]))],
    };
    let small = CatalogIndex::build(&db);
    let m = calculate_metrics(&log, d + 7_200, "DAY", &small);
    assert_eq!(m.album_completion.len(), 1);
    assert_eq!(m.album_completion[0].1, RATIO_ONE);
    assert_eq!(m.album_completion[0].2, Some("https://img/Small".to_string()));
    assert_eq!(m.history[0].albums_completed, 2 * RATIO_ONE as u128);
    let m2 = calculate_metrics(&log, d + 7_200, "DAY", &ix);
    assert!(m2.album_completion.iter().all(|a| a.1 <= RATIO_ONE));
    assert_eq!(m2.album_weight[0].1, 6);
}

#[test]
fn discovery_counts_increase() {
    let ix = catalog();
    let log = vec![
        listen(MIDNIGHT + 500, "Heroes", Some("r3"), None),
        listen(MIDNIGHT + 100, "Warszawa", Some("r1"), None),
        listen(MIDNIGHT + 300, "Heroes", Some("r3"), None),
        listen(MIDNIGHT + 900, "Blackout", Some("r4"), None),
    ];
    let m = calculate_metrics(&log, MIDNIGHT + DAY, "DAY", &ix);
    assert_eq!(m.discovery_timeline, vec![(MIDNIGHT + 100, 1), (MIDNIGHT + 300, 2), (MIDNIGHT + 900, 3)]);
}

#[test]
fn badges_are_deterministic() {
    let ix = catalog();
    let now = MIDNIGHT + 5 * DAY;
    let mut log = Vec::new();
    for k in 0..3 {
        for i in 0..(k + 1) {
            log.push(listen(MIDNIGHT + k * DAY + 6 * 3_600 + i * 600, "Heroes", Some("r3"), None));
        }
    }
    let a = calculate_metrics(&log, now, "DAY", &ix);
    let b = calculate_metrics(&log, now, "DAY", &ix);
    let badges_a: Vec<Option<Badge>> = a.history.iter().map(|d| d.badge).collect();
    let badges_b: Vec<Option<Badge>> = b.history.iter().map(|d| d.badge).collect();
    assert_eq!(badges_a, badges_b);
    assert_eq!(badges_a, vec![Some(Badge::PeakSession), Some(Badge::HighActivity), None]);
    assert_eq!(a.rewards.len(), 1);
    assert_eq!(a.rewards[0].badge, Some(Badge::MilestoneMonth));
    assert_eq!(a.rewards[0].month_name, "March");
    assert_eq!(a.rewards[0].total_scrobbles, 6);
    assert_eq!(a.rewards[0].days.len(), 3);
}

#[test]
fn forgotten_classics_need_idle_and_plays() {
    let ix = catalog();
    let now = MIDNIGHT + 60 * DAY;
    let mut log = Vec::new();
    for i in 0..3 {
        log.push(listen(MIDNIGHT + i * 600, "Heroes", Some("r3"), None));
    }
    for i in 0..2 {
        log.push(listen(MIDNIGHT + i * 600, "Blackout", Some("r4"), None));
    }
    for i in 0..5 {
        log.push(listen(now - 3_600 + i * 60, "Warszawa", Some("r1"), None));
    }
    let m = calculate_metrics(&log, now, "DAY", &ix);
    assert_eq!(m.forgotten_classics, vec![("Heroes".to_string(), 59, 3)]);
    assert_eq!(m.song_of_the_day, Some(("Heroes".to_string(), "Heroes".to_string())));
    let recent = calculate_metrics(&log, MIDNIGHT + DAY, "DAY", &ix);
    assert!(recent.forgotten_classics.is_empty());
}

#[test]
fn charts_have_fixed_shapes() {
    let ix = catalog();
    let now = MIDNIGHT + 2 * DAY;
    let log = vec![listen(MIDNIGHT + 13 * 3_600, "Heroes", Some("r3"), None)];
    let m = calculate_metrics(&log, now, "DAY", &ix);
    assert_eq!(m.hourly_activity.len(), 24);
    assert_eq!(m.hourly_activity[13], (13, 1));
    assert_eq!(m.consistency_grid.len(), 30);
    assert_eq!(m.consistency_grid[29].0, MIDNIGHT + 2 * DAY - DAY + 18_000);
    assert_eq!(m.consistency_grid[28], (MIDNIGHT + 18_000, 1));
    assert_eq!(m.monthly_volume.len(), 12);
    assert_eq!(m.monthly_volume[11], ("Mar".to_string(), 1));
    assert_eq!(m.yearly_distribution, vec![(2024, 1)]);
    assert_eq!(m.track_time_leaderboard, vec![("Heroes".to_string(), 3)]);
}

#[test]
fn empty_catalog_gives_empty_dashboard() {
    let ix = CatalogIndex::build(&BowieDatabase { release_groups: vec![] });
    let log = vec![listen(MIDNIGHT, "Heroes", Some("r3"), None)];
    let m = calculate_metrics(&log, MIDNIGHT + DAY, "DAY", &ix);
    assert_eq!(m.counts.total, 0);
    assert!(m.history.is_empty());
    assert!(m.consistency_grid.is_empty());
    assert!(m.song_of_the_day.is_none());
}

#[test]
fn release_types_and_insights() {
    let db = BowieDatabase {
        release_groups: vec![
            ("a".to_string(), group("Low", 2, vec![track("r1", "Warszawa")])),
            (
                "b".to_string(),
                BowieReleaseGroup {
                    title: "Stage".to_string(),
                    release_type: Some("Live".to_string()),
                    track_count: 2,
                    image_url: None,
                    tracks: vec![track("r9", "Station to Station")],
                },
            ),
        ],
    };
    let ix = CatalogIndex::build(&db);
    // 2024-01-15 and 2024-02-15, both well inside their months
    let jan = 1_705_320_000;
    let feb = 1_707_998_400;
    let log = vec![
        listen(jan, "Warszawa", Some("r1"), None),
        listen(feb, "Station to Station", Some("r9"), Some(7_200_000)),
        listen(feb + 600, "Station to Station", Some("r9"), Some(7_200_000)),
        listen(feb + 1_200, "Warszawa", Some("r1"), None),
    ];
    let m = calculate_metrics(&log, feb + 3 * DAY, "MONTH", &ix);
    assert_eq!(m.type_distribution, vec![("Album".to_string(), 2), ("Live".to_string(), 2)]);
    assert_eq!(m.rewards.len(), 2);
    assert_eq!(m.rewards[0].month, 2);
    assert_eq!(m.rewards[0].badge, Some(Badge::MilestoneMonth));
    assert_eq!(m.rewards[1].badge, Some(Badge::TopPeriod));
    assert_eq!(m.insights.len(), 1);
    assert_eq!(m.insights[0].title, "2nd Most Active Month");
    assert_eq!(m.insights[0].value, "January 2024");
    assert_eq!(m.insights[0].description, "Time: 0h");
    assert_eq!(m.rewards[0].top_track, "Station to Station");
    assert_eq!(m.last_listen_display, "Feb 15");
}

#[test]
fn relative_time_labels() {
    assert_eq!(format_relative_time(MIDNIGHT, MIDNIGHT + 30), "Just now");
    assert_eq!(format_relative_time(MIDNIGHT, MIDNIGHT + 300), "5m ago");
    assert_eq!(format_relative_time(MIDNIGHT, MIDNIGHT + 3 * 3_600), "3h ago");
    assert_eq!(format_relative_time(MIDNIGHT, MIDNIGHT + 2 * DAY), "Mar 10");
}

#[test]
fn compact_catalog_index() {
    let lk = bowie_tracker::models::BowieLookup {
        recordings: vec![
            ("r1".to_string(), "rg-low".to_string()),
            ("r2".to_string(), "missing".to_string()),
            ("r3".to_string(), "rg-low".to_string()),
            ("r3".to_string(), "rg-heroes".to_string()),
        ],
        release_groups: vec![
            ("rg-low".to_string(), ("Low".to_string(), None, 11, Some("Album".to_string()))),
            ("rg-heroes".to_string(), ("Heroes".to_string(), None, 10, Some("Album".to_string()))),
        ],
    };
    let ix = CatalogIndex::from_lookup(&lk);
    assert_eq!(ix.groups.len(), 2);
    assert!(ix.names.is_empty());
    let hit = listen(MIDNIGHT, "x", Some("r3"), None);
    assert_eq!(classify(&hit, &ix), Some(("r3".to_string(), "rg-heroes".to_string())));
    let missing = listen(MIDNIGHT, "x", Some("r2"), None);
    assert_eq!(classify(&missing, &ix), None);
    let low = listen(MIDNIGHT, "x", Some("r1"), None);
    assert_eq!(classify(&low, &ix), Some(("r1".to_string(), "rg-low".to_string())));
}

#[test]
fn events_are_taken_in_time_order() {
    let ix = catalog();
    // the later play of the day comes first in the log
    let log = vec![
        listen(MIDNIGHT + 12 * 3_600, "Blackout", Some("r4"), None),
        listen(MIDNIGHT + 11 * 3_600, "Warszawa", Some("r1"), None),
    ];
    let m = calculate_metrics(&log, MIDNIGHT + 13 * 3_600, "DAY", &ix);
    // equal completion and minutes: the album played first ranks first
    assert_eq!(m.history[0].top_tracks[0].0, "Warszawa");
    assert_eq!(m.discovery_timeline, vec![(MIDNIGHT + 11 * 3_600, 1), (MIDNIGHT + 12 * 3_600, 2)]);
}

#[test]
fn decimal_forms() {
    use_decimal(0, "0");
    use_decimal(7, "7");
    use_decimal(-42, "-42");
    use_decimal(2024, "2024");
    use_decimal(i64::MIN, "-9223372036854775808");
}

fn use_decimal(n: i64, expected: &str) {
    assert_eq!(bowie_tracker::insights::decimal(n), expected);
}

#[test]
fn membership_variants() {
    let ix = catalog();
    let no_id = meta("Heroes", None, None);
    assert!(!belongs(&no_id, &ix, &Membership::Strict));
    assert!(belongs(&no_id, &ix, &Membership::ArtistText("bowie".to_string())));
    let with_id = meta("Heroes", Some("r3"), None);
    assert!(belongs(&with_id, &ix, &Membership::Strict));
    let mut other = meta("Golden Years", None, None);
    other.artist_name = "Someone Else".to_string();
    assert!(!matches_artist_text(&other, &"bowie".to_string()));
    other.mbid_mapping = Some(MbidMapping {
        recording_name: None,
        recording_mbid: None,
        artists: Some(vec![MappedArtist { artist_credit_name: "DAVID BOWIE".to_string() }]),
        release_name: None,
    });
    assert!(matches_artist_text(&other, &"bowie".to_string()));
}

#[test]
fn substring_search() {
    assert!(contains_text("david bowie", "bowie"));
    assert!(contains_text("abc", ""));
    assert!(!contains_text("bow", "bowie"));
    assert!(!contains_text("david", "bowie"));
    assert!(contains_text("bowie", "bowie"));
}
