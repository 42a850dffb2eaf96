//! Playback progress across now-playing polls: a state machine that decides,
//! from the live match, the persisted record and the latest history event,
//! what is tracked and what the persisted record becomes.
use vstd::prelude::*;

verus! {

/// A tracked identity and the time its playback started; also the shape of
/// the persisted record and of the latest classified history event.
pub struct PlaybackRecord {
    pub identity: String,
    pub start: i64,
}

pub enum PlaybackState {
    Idle,
    Tracking { identity: String, start: i64 },
}

/// What to do with the persisted record.
pub enum StoreAction {
    Keep,
    Write { identity: String, start: i64 },
    Clear,
}

pub struct PlaybackStep {
    pub state: PlaybackState,
    pub action: StoreAction,
}

/// The identity that `state` tracks, if any.
pub open spec fn followed(state: PlaybackState) -> Option<(Seq<char>, i64)> {
    match state {
        PlaybackState::Idle => None,
        PlaybackState::Tracking { identity, start } => Some((identity@, start)),
    }
}

pub open spec fn record_view(r: Option<&PlaybackRecord>) -> Option<(Seq<char>, i64)> {
    match r {
        Some(x) => Some((x.identity@, x.start)),
        None => None,
    }
}

/// What a step tracks and writes: `None` for idle / clear, else the identity
/// and start time, with whether the record is written.
pub open spec fn action_view(a: StoreAction) -> Option<Option<(Seq<char>, i64)>> {
    match a {
        StoreAction::Keep => None,
        StoreAction::Write { identity, start } => Some(Some((identity@, start))),
        StoreAction::Clear => Some(None),
    }
}

/// The transition of one poll. With no live match: idle, record cleared.
/// With the identity already tracked: kept, its start moved earlier when the
/// latest history event of that identity started earlier (and written).
/// With a new identity: restored from the persisted record of that identity,
/// else from the latest history event of that identity (written), else
/// started at `now` (written).
pub open spec fn next_step(
    state: Option<(Seq<char>, i64)>,
    live: Option<Seq<char>>,
    persisted: Option<(Seq<char>, i64)>,
    latest: Option<(Seq<char>, i64)>,
    now: i64,
) -> (Option<(Seq<char>, i64)>, Option<Option<(Seq<char>, i64)>>) {
    match live {
        None => (None, Some(None)),
        Some(id) => {
            if state.is_some() && state.unwrap().0 == id {
                let start = state.unwrap().1;
                if latest.is_some() && latest.unwrap().0 == id && latest.unwrap().1 < start {
                    (Some((id, latest.unwrap().1)), Some(Some((id, latest.unwrap().1))))
                } else {
                    (Some((id, start)), None)
                }
            } else if persisted.is_some() && persisted.unwrap().0 == id {
                (Some((id, persisted.unwrap().1)), None)
            } else if latest.is_some() && latest.unwrap().0 == id {
                (Some((id, latest.unwrap().1)), Some(Some((id, latest.unwrap().1))))
            } else {
                (Some((id, now)), Some(Some((id, now))))
            }
        },
    }
}

fn tracking(identity: &String, start: i64) -> (r: PlaybackStep)
    ensures
        followed(r.state) == Some((identity@, start)),
        action_view(r.action) == Some(Some((identity@, start))),
{
    PlaybackStep {
        state: PlaybackState::Tracking { identity: identity.clone(), start },
        action: StoreAction::Write { identity: identity.clone(), start },
    }
}

/// One poll of the playback tracker.
pub fn reconcile(
    state: &PlaybackState,
    live: Option<&String>,
    persisted: Option<&PlaybackRecord>,
    latest: Option<&PlaybackRecord>,
    now: i64,
) -> (r: PlaybackStep)
    ensures
        (followed(r.state), action_view(r.action)) == next_step(
            followed(*state),
            match live {
                Some(s) => Some(s@),
                None => None,
            },
            record_view(persisted),
            record_view(latest),
            now,
        ),
{
    let id = match live {
        None => {
            return PlaybackStep { state: PlaybackState::Idle, action: StoreAction::Clear };
        },
        Some(id) => id,
    };
    if let PlaybackState::Tracking { identity, start } = state {
        if *identity == *id {
            if let Some(h) = latest {
                if h.identity == *id && h.start < *start {
                    return tracking(id, h.start);
                }
            }
            return PlaybackStep {
                state: PlaybackState::Tracking { identity: id.clone(), start: *start },
                action: StoreAction::Keep,
            };
        }
    }
    if let Some(p) = persisted {
        if p.identity == *id {
            return PlaybackStep {
                state: PlaybackState::Tracking { identity: id.clone(), start: p.start },
                action: StoreAction::Keep,
            };
        }
    }
    if let Some(h) = latest {
        if h.identity == *id {
            return tracking(id, h.start);
        }
    }
    tracking(id, now)
}

} // verus!
