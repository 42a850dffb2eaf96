use bowie_tracker::playback::{reconcile, PlaybackRecord, PlaybackState, StoreAction};
use bowie_tracker::throttle::RateLimiter;

fn start_of(state: &PlaybackState) -> Option<(String, i64)> {
    match state {
        PlaybackState::Idle => None,
        PlaybackState::Tracking { identity, start } => Some((identity.clone(), *start)),
    }
}

fn written(action: &StoreAction) -> Option<Option<(String, i64)>> {
    match action {
        StoreAction::Keep => None,
        StoreAction::Write { identity, start } => Some(Some((identity.clone(), *start))),
        StoreAction::Clear => Some(None),
    }
}

#[test]
fn playback_starts_fresh_and_persists() {
    let id = "heroes".to_string();
    let step = reconcile(&PlaybackState::Idle, Some(&id), None, None, 1_000);
    assert_eq!(start_of(&step.state), Some((id.clone(), 1_000)));
    assert_eq!(written(&step.action), Some(Some((id.clone(), 1_000))));
}

#[test]
fn playback_restores_persisted_then_history() {
    let id = "heroes".to_string();
    let saved = PlaybackRecord { identity: id.clone(), start: 900 };
    let step = reconcile(&PlaybackState::Idle, Some(&id), Some(&saved), None, 1_000);
    assert_eq!(start_of(&step.state), Some((id.clone(), 900)));
    assert_eq!(written(&step.action), None);
    let other = PlaybackRecord { identity: "low".to_string(), start: 500 };
    let hist = PlaybackRecord { identity: id.clone(), start: 950 };
    let step = reconcile(&PlaybackState::Idle, Some(&id), Some(&other), Some(&hist), 1_000);
    assert_eq!(start_of(&step.state), Some((id.clone(), 950)));
    assert_eq!(written(&step.action), Some(Some((id.clone(), 950))));
}

#[test]
fn playback_corrects_start_and_goes_idle() {
    let id = "heroes".to_string();
    let state = PlaybackState::Tracking { identity: id.clone(), start: 1_000 };
    let same = reconcile(&state, Some(&id), None, None, 1_010);
    assert_eq!(start_of(&same.state), Some((id.clone(), 1_000)));
    assert_eq!(written(&same.action), None);
    let earlier = PlaybackRecord { identity: id.clone(), start: 990 };
    let fixed = reconcile(&state, Some(&id), None, Some(&earlier), 1_010);
    assert_eq!(start_of(&fixed.state), Some((id.clone(), 990)));
    assert_eq!(written(&fixed.action), Some(Some((id.clone(), 990))));
    let idle = reconcile(&state, None, None, None, 1_020);
    assert_eq!(start_of(&idle.state), None);
    assert_eq!(written(&idle.action), Some(None));
}

#[test]
fn limiter_waits_only_when_quota_is_low() {
    let mut rl = RateLimiter::new();
    assert_eq!(rl.should_throttle(100), 0);
    rl.observe(Some(1), Some(105));
    assert_eq!(rl.should_throttle(100), 5_000);
    assert_eq!(rl.should_throttle(105), 0);
    rl.observe(None, Some(200));
    assert_eq!(rl.remaining, 1);
    assert_eq!(rl.should_throttle(100), 100_000);
    rl.observe(Some(10), None);
    assert_eq!(rl.should_throttle(100), 0);
}
