//! Client-side state of a real-time collaborative call ("room"): roster
//! reconciliation, reconnection supervision, local media track lifecycle and
//! the session operations built on them.
//!
//! Everything here is a deterministic state machine. The surrounding runtime
//! performs network requests, media engine calls and timers, and feeds their
//! outcomes back as plain values; the room queues the events it emits and the
//! effects it asks for.
use vstd::prelude::*;

pub mod types;
pub mod media;
pub mod reconnect;
pub mod roster;
pub mod publisher;
pub mod room;

pub use media::{LocalTrack, MediaSession, TrackKind};
pub use publisher::parse_user_id;
pub use reconnect::{ConnectionStatus, ReconnectSupervisor, SupervisorAction, SupervisorPhase};
pub use room::{
    CallRequest, LocalParticipant, LocationUpdate, ProjectRef, RejoinRequest, Room, RosterRequest,
    ShareProjectStart,
};
pub use roster::RemoteParticipant;
pub use types::{
    AudioTrackUpdate, Effect, Event, FollowerEdge, ParticipantLocation, ParticipantProject,
    ParticipantState, PeerId, ProjectHandle, ProjectInfo, RoomError, RoomSnapshot, RoomStatus, Sound,
    User, VideoTrackUpdate,
};
