//! Local media tracks: publish / mute / unpublish lifecycle with cancellation
//! of superseded publish attempts.
use vstd::prelude::*;
use crate::types::{Effect, RoomError, Sound};

verus! {

/// State of one kind of local track (microphone or screen).
#[derive(Clone, Copy, Debug, PartialEq, Eq, Structural)]
pub enum LocalTrack {
    /// No track of this kind exists.
    Idle,
    /// A publish attempt is in flight; `publish_id` identifies it.
    Pending { publish_id: u64, muted: bool },
    /// The media engine published the track; `publication` is its handle.
    Published { publication: u64, muted: bool },
}

/// The two kinds of local track.
#[derive(Clone, Copy, Debug, PartialEq, Eq, Structural)]
pub enum TrackKind {
    Microphone,
    Screen,
}

/// Local side of the media engine connection.
#[derive(Clone, Copy, Debug, PartialEq, Eq, Structural)]
pub struct MediaSession {
    pub screen_track: LocalTrack,
    pub microphone_track: LocalTrack,
    /// Whether the microphone was muted by the user, as opposed to by deafening.
    pub muted_by_user: bool,
    pub deafened: bool,
    pub speaking: bool,
    pub next_publish_id: u64,
    /// Whether the engine reports its connection to the media server as up.
    pub connected: bool,
}

pub open spec fn track_muted(t: LocalTrack) -> bool {
    match t {
        LocalTrack::Idle => false,
        LocalTrack::Pending { muted, .. } => muted,
        LocalTrack::Published { muted, .. } => muted,
    }
}

/// The track with its mute flag replaced; `None` stays `None`.
pub open spec fn with_muted(t: LocalTrack, m: bool) -> LocalTrack {
    match t {
        LocalTrack::Idle => LocalTrack::Idle,
        LocalTrack::Pending { publish_id, .. } => LocalTrack::Pending { publish_id, muted: m },
        LocalTrack::Published { publication, .. } => LocalTrack::Published { publication, muted: m },
    }
}

/// Effects of changing the microphone's mute flag from `old` to `m`.
pub open spec fn mute_effects(t: LocalTrack, m: bool) -> Seq<Effect> {
    let engine = match t {
        LocalTrack::Published { publication, .. } => seq![Effect::SetTrackMuted { publication, muted: m }],
        _ => Seq::empty(),
    };
    let sound = if track_muted(t) == m {
        Seq::empty()
    } else if m {
        seq![Effect::PlaySound { sound: Sound::Mute }]
    } else {
        seq![Effect::PlaySound { sound: Sound::Unmute }]
    };
    engine + sound
}

/// Outcome of a publish attempt once the engine answered.
pub open spec fn published_track(t: LocalTrack, publish_id: u64, outcome: Result<u64, ()>) -> LocalTrack {
    match t {
        LocalTrack::Pending { publish_id: cur, muted } if cur == publish_id => match outcome {
            Ok(publication) => LocalTrack::Published { publication, muted },
            Err(_) => LocalTrack::Idle,
        },
        _ => t,
    }
}

/// A publish attempt is superseded when the track no longer waits for it.
pub open spec fn superseded(t: LocalTrack, publish_id: u64) -> bool {
    !(t matches LocalTrack::Pending { publish_id: cur, .. } && cur == publish_id)
}

/// Effects of the engine's answer to a publish attempt.
pub open spec fn publish_effects(
    kind: TrackKind,
    t: LocalTrack,
    publish_id: u64,
    outcome: Result<u64, ()>,
) -> Seq<Effect> {
    match outcome {
        Ok(publication) => {
            if superseded(t, publish_id) {
                seq![Effect::UnpublishTrack { publication }]
            } else {
                let settle = if track_muted(t) {
                    seq![Effect::SetTrackMuted { publication, muted: true }]
                } else {
                    Seq::empty()
                };
                if kind == TrackKind::Screen {
                    settle.push(Effect::PlaySound { sound: Sound::StartScreenshare })
                } else {
                    settle
                }
            }
        },
        Err(_) => Seq::empty(),
    }
}

/// A publish attempt that was superseded before the engine answered (the
/// track was unshared, or another attempt started) leaves the track as it
/// is, and a publication that still arrives for it is withdrawn at once.
pub proof fn lemma_superseded_publish_withdrawn(m: MediaSession, kind: TrackKind, publish_id: u64, publication: u64)
    requires
        superseded(m.track(kind), publish_id),
    ensures
        m.with_track(kind, published_track(m.track(kind), publish_id, Ok(publication))) == m,
        publish_effects(kind, m.track(kind), publish_id, Ok(publication)) == seq![Effect::UnpublishTrack { publication }],
{
}

/// Sharing the screen and unsharing it before the engine answers: the
/// publication that arrives afterwards is withdrawn, silently, and the screen
/// track stays idle.
pub proof fn lemma_screen_unshared_while_pending(m: MediaSession, publication: u64)
    ensures
        ({
            let id = m.next_publish_id;
            let pending = m.with_track(TrackKind::Screen, LocalTrack::Pending { publish_id: id, muted: false });
            let unshared = MediaSession { screen_track: LocalTrack::Idle, ..pending };
            &&& published_track(unshared.screen_track, id, Ok(publication)) == LocalTrack::Idle
            &&& publish_effects(TrackKind::Screen, unshared.screen_track, id, Ok(publication)) == seq![
                Effect::UnpublishTrack { publication },
            ]
        }),
{
    let id = m.next_publish_id;
    assert(superseded(LocalTrack::Idle, id));
    assert(publish_effects(TrackKind::Screen, LocalTrack::Idle, id, Ok(publication)) =~= seq![
        Effect::UnpublishTrack { publication },
    ]);
}

impl MediaSession {
    pub open spec fn track(self, kind: TrackKind) -> LocalTrack {
        match kind {
            TrackKind::Microphone => self.microphone_track,
            TrackKind::Screen => self.screen_track,
        }
    }

    pub open spec fn with_track(self, kind: TrackKind, t: LocalTrack) -> MediaSession {
        match kind {
            TrackKind::Microphone => MediaSession { microphone_track: t, ..self },
            TrackKind::Screen => MediaSession { screen_track: t, ..self },
        }
    }

    /// A session with no local tracks.
    pub open spec fn new_spec() -> MediaSession {
        MediaSession {
            screen_track: LocalTrack::Idle,
            microphone_track: LocalTrack::Idle,
            muted_by_user: false,
            deafened: false,
            speaking: false,
            next_publish_id: 0,
            connected: false,
        }
    }

    pub fn new() -> (r: MediaSession)
        ensures
            r == Self::new_spec(),
    {
        MediaSession {
            screen_track: LocalTrack::Idle,
            microphone_track: LocalTrack::Idle,
            muted_by_user: false,
            deafened: false,
            speaking: false,
            next_publish_id: 0,
            connected: false,
        }
    }

    pub fn get_track(&self, kind: TrackKind) -> (r: LocalTrack)
        ensures
            r == self.track(kind),
    {
        match kind {
            TrackKind::Microphone => self.microphone_track,
            TrackKind::Screen => self.screen_track,
        }
    }

    fn set_track(&mut self, kind: TrackKind, t: LocalTrack)
        ensures
            *final(self) == old(self).with_track(kind, t),
    {
        match kind {
            TrackKind::Microphone => self.microphone_track = t,
            TrackKind::Screen => self.screen_track = t,
        }
    }

    /// Starts a publish attempt: allocates the next publish id and marks the
    /// track pending and unmuted.
    pub fn begin_publish(&mut self, kind: TrackKind) -> (publish_id: u64)
        ensures
            publish_id == old(self).next_publish_id,
            *final(self) == (MediaSession {
                next_publish_id: old(self).next_publish_id.wrapping_add(1),
                ..old(self).with_track(kind, LocalTrack::Pending { publish_id, muted: false })
            }),
    {
        let publish_id = self.next_publish_id;
        self.next_publish_id = self.next_publish_id.wrapping_add(1);
        self.set_track(kind, LocalTrack::Pending { publish_id, muted: false });
        publish_id
    }

    /// Applies the engine's answer to the publish attempt `publish_id`.
    /// A superseded attempt leaves the track alone; a publication that
    /// arrives for it is withdrawn again.
    pub fn finish_publish(
        &mut self,
        kind: TrackKind,
        publish_id: u64,
        outcome: Result<u64, ()>,
        effects: &mut Vec<Effect>,
    ) -> (r: Result<(), RoomError>)
        ensures
            *final(self) == old(self).with_track(
                kind,
                published_track(old(self).track(kind), publish_id, outcome),
            ),
            final(effects)@ == old(effects)@ + publish_effects(
                kind,
                old(self).track(kind),
                publish_id,
                outcome,
            ),
            r is Err <==> (outcome is Err && !superseded(old(self).track(kind), publish_id)),
            r is Err ==> r == Err::<(), RoomError>(RoomError::EngineFailure),
    {
        let t = self.get_track(kind);
        let (canceled, muted) = match t {
            LocalTrack::Pending { publish_id: cur, muted } => (cur != publish_id, muted),
            _ => (true, false),
        };
        match outcome {
            Ok(publication) => {
                if canceled {
                    effects.push(Effect::UnpublishTrack { publication });
                } else {
                    if muted {
                        effects.push(Effect::SetTrackMuted { publication, muted: true });
                    }
                    self.set_track(kind, LocalTrack::Published { publication, muted });
                    if kind == TrackKind::Screen {
                        effects.push(Effect::PlaySound { sound: Sound::StartScreenshare });
                    }
                }
                Ok(())
            },
            Err(_) => {
                if canceled {
                    Ok(())
                } else {
                    self.set_track(kind, LocalTrack::Idle);
                    Err(RoomError::EngineFailure)
                }
            },
        }
    }

    /// Sets the microphone's mute flag. Unmuting also clears the record of a
    /// manual mute. Fails, changing nothing, when no microphone track exists.
    pub fn set_mute(&mut self, should_mute: bool, effects: &mut Vec<Effect>) -> (r: Result<bool, RoomError>)
        ensures
            old(self).microphone_track is Idle ==> {
                &&& r == Err::<bool, RoomError>(RoomError::NotShared)
                &&& *final(self) == *old(self)
                &&& final(effects)@ == old(effects)@
            },
            !(old(self).microphone_track is Idle) ==> {
                &&& r == Ok::<bool, RoomError>(track_muted(old(self).microphone_track))
                &&& *final(self) == (MediaSession {
                    microphone_track: with_muted(old(self).microphone_track, should_mute),
                    muted_by_user: if should_mute { old(self).muted_by_user } else { false },
                    ..*old(self)
                })
                &&& final(effects)@ == old(effects)@ + mute_effects(old(self).microphone_track, should_mute)
            },
    {
        let (new_track, old_muted) = match self.microphone_track {
            LocalTrack::Idle => {
                return Err(RoomError::NotShared);
            },
            LocalTrack::Pending { publish_id, muted } => {
                (LocalTrack::Pending { publish_id, muted: should_mute }, muted)
            },
            LocalTrack::Published { publication, muted } => {
                effects.push(Effect::SetTrackMuted { publication, muted: should_mute });
                (LocalTrack::Published { publication, muted: should_mute }, muted)
            },
        };
        if !should_mute {
            self.muted_by_user = false;
        }
        self.microphone_track = new_track;
        if old_muted != should_mute {
            if should_mute {
                effects.push(Effect::PlaySound { sound: Sound::Mute });
            } else {
                effects.push(Effect::PlaySound { sound: Sound::Unmute });
            }
        }
        Ok(old_muted)
    }
}

} // verus!
