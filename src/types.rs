use vstd::prelude::*;

verus! {

/// Connection state of a room as seen by the local client.
#[derive(Clone, Copy, Debug, PartialEq, Eq, Structural)]
pub enum RoomStatus {
    Online,
    Rejoining,
    Offline,
}

impl RoomStatus {
    pub fn is_offline(&self) -> (r: bool)
        ensures
            r == (*self == RoomStatus::Offline),
    {
        matches!(self, RoomStatus::Offline)
    }

    pub fn is_online(&self) -> (r: bool)
        ensures
            r == (*self == RoomStatus::Online),
    {
        matches!(self, RoomStatus::Online)
    }
}

/// Transport identity of one client connection to the coordinating server.
#[derive(Clone, Copy, Debug, PartialEq, Eq, Structural)]
pub struct PeerId {
    pub owner_id: u32,
    pub id: u32,
}

/// A user as resolved by the user directory.
#[derive(Clone, Debug, PartialEq, Eq)]
pub struct User {
    pub id: u64,
    pub github_login: String,
}

impl User {
    pub fn duplicate(&self) -> (r: User)
        ensures
            r == *self,
    {
        User { id: self.id, github_login: self.github_login.clone() }
    }
}

/// Summary of a project that a participant shares.
#[derive(Clone, Debug, PartialEq, Eq)]
pub struct ParticipantProject {
    pub id: u64,
    pub worktree_root_names: Vec<String>,
}

pub fn duplicate_strings(v: &Vec<String>) -> (r: Vec<String>)
    ensures
        r@ == v@,
{
    let mut r: Vec<String> = Vec::new();
    let mut i: usize = 0;
    while i < v.len()
        invariant
            i <= v.len(),
            r@ == v@.subrange(0, i as int),
        decreases v.len() - i,
    {
        r.push(v[i].clone());
        i = i + 1;
    }
    r
}

/// Value-level model of a [`ParticipantProject`].
pub struct ProjectSummary {
    pub id: u64,
    pub worktree_root_names: Seq<String>,
}

impl View for ParticipantProject {
    type V = ProjectSummary;

    open spec fn view(&self) -> ProjectSummary {
        ProjectSummary { id: self.id, worktree_root_names: self.worktree_root_names@ }
    }
}

/// Models of a sequence of projects.
pub open spec fn summaries(ps: Seq<ParticipantProject>) -> Seq<ProjectSummary> {
    ps.map_values(|p: ParticipantProject| p@)
}

pub fn duplicate_projects(v: &Vec<ParticipantProject>) -> (r: Vec<ParticipantProject>)
    ensures
        summaries(r@) == summaries(v@),
{
    let mut r: Vec<ParticipantProject> = Vec::new();
    let mut i: usize = 0;
    while i < v.len()
        invariant
            i <= v.len(),
            r@.len() == i,
            summaries(r@) == summaries(v@.subrange(0, i as int)),
        decreases v.len() - i,
    {
        let p = v[i].duplicate();
        let ghost prev = r@;
        r.push(p);
        i = i + 1;
        proof {
            let pre = v@.subrange(0, i as int);
            assert forall|k: int| 0 <= k < r@.len() implies summaries(r@)[k] == summaries(pre)[k] by {
                if k + 1 < i {
                    assert(summaries(prev)[k] == summaries(v@.subrange(0, i - 1))[k]);
                }
            }
            assert(summaries(r@) =~= summaries(pre));
        }
    }
    r
}

impl ParticipantProject {
    pub fn duplicate(&self) -> (r: ParticipantProject)
        ensures
            r@ == self@,
    {
        ParticipantProject { id: self.id, worktree_root_names: duplicate_strings(&self.worktree_root_names) }
    }
}

/// Where a participant's attention currently is.
#[derive(Clone, Copy, Debug, PartialEq, Eq, Structural)]
pub enum ParticipantLocation {
    SharedProject { project_id: u64 },
    UnsharedProject,
    External,
}

/// Notifications for observers of a room.
#[derive(Clone, Debug, PartialEq, Eq)]
pub enum Event {
    ParticipantLocationChanged { participant_id: PeerId },
    RemoteVideoTracksChanged { participant_id: PeerId },
    RemoteAudioTracksChanged { participant_id: PeerId },
    RemoteProjectShared { owner: User, project_id: u64, worktree_root_names: Vec<String> },
    RemoteProjectUnshared { project_id: u64 },
    Left,
}

/// Notification sounds that the room asks to be played.
#[derive(Clone, Copy, Debug, PartialEq, Eq, Structural)]
pub enum Sound {
    Joined,
    Leave,
    Mute,
    Unmute,
    StartScreenshare,
    StopScreenshare,
}

/// Handle of a project whose lifetime is owned outside the room. The room
/// only refers to it; whether it is still open is asked of a registry.
#[derive(Clone, Copy, Debug, PartialEq, Eq, Structural)]
pub struct ProjectHandle {
    pub id: u64,
}

/// What the project registry reports about one open project.
#[derive(Clone, Copy, Debug, PartialEq, Eq, Structural)]
pub struct ProjectInfo {
    pub handle: ProjectHandle,
    pub remote_id: Option<u64>,
    pub read_only: bool,
}

/// Side effects that the room asks its runtime to perform, in order.
#[derive(Clone, Copy, Debug, PartialEq, Eq, Structural)]
pub enum Effect {
    PlaySound { sound: Sound },
    /// Stop sharing a project that the local user shared.
    UnshareProject { project: ProjectHandle },
    /// Mark a joined project as disconnected from its host and close it.
    CloseJoinedProject { project: ProjectHandle },
    /// Mark a joined project as disconnected from its host.
    DisconnectJoinedProject { project: ProjectHandle },
    /// Replay the media engine's existing subscriptions of a newly seen
    /// participant as subscription updates.
    HydrateTracks { user_id: u64 },
    /// Withdraw a published local track from the media engine.
    UnpublishTrack { publication: u64 },
    /// Set the mute state of a published local track.
    SetTrackMuted { publication: u64, muted: bool },
    /// Enable or disable playback of all remote audio of one participant.
    SetRemoteAudioEnabled { user_id: u64, enabled: bool },
    /// Tell the server that the local user leaves the room.
    SendLeaveRoom,
    /// The server took back a project the local user shares again after a
    /// rejoin; it resumes syncing.
    ProjectReshared { project: ProjectHandle },
    /// The server took back a project the local user rejoined as a guest; it
    /// resumes syncing from the response with id `message_id`.
    ProjectRejoined { project: ProjectHandle, message_id: u32 },
}

/// Errors of room operations.
#[derive(Clone, Copy, Debug, PartialEq, Eq, Structural)]
pub enum RoomError {
    /// The operation needs the room to be online or rejoining.
    Offline,
    /// The microphone or the screen is already being shared.
    AlreadyInProgress,
    /// The screen or the microphone is not being shared.
    NotShared,
    /// The room has no media session.
    MediaNotStarted,
    /// An update referred to a participant that the roster does not hold.
    NotFound,
    /// A track publisher identifier does not hold a user id.
    InvalidPublisher,
    /// A server response carried no room.
    InvalidRoom,
    /// A server request failed.
    RemoteRequestFailed,
    /// The media engine failed to publish a track.
    EngineFailure,
    /// Reconnection gave up; the room was left.
    ReconnectExhausted,
}

/// The text of each error.
pub open spec fn error_text(e: RoomError) -> Seq<char> {
    match e {
        RoomError::Offline => "room is offline"@,
        RoomError::AlreadyInProgress => "already shared"@,
        RoomError::NotShared => "not shared"@,
        RoomError::MediaNotStarted => "live-kit was not initialized"@,
        RoomError::NotFound => "update for an unknown participant"@,
        RoomError::InvalidPublisher => "invalid track publisher id"@,
        RoomError::InvalidRoom => "invalid room"@,
        RoomError::RemoteRequestFailed => "request failed"@,
        RoomError::EngineFailure => "media engine failure"@,
        RoomError::ReconnectExhausted => "can't reconnect to room: client failed to re-establish connection"@,
    }
}

impl RoomError {
    pub fn message(&self) -> (r: String)
        ensures
            r@ == error_text(*self),
    {
        match self {
            RoomError::Offline => String::from_str("room is offline"),
            RoomError::AlreadyInProgress => String::from_str("already shared"),
            RoomError::NotShared => String::from_str("not shared"),
            RoomError::MediaNotStarted => String::from_str("live-kit was not initialized"),
            RoomError::NotFound => String::from_str("update for an unknown participant"),
            RoomError::InvalidPublisher => String::from_str("invalid track publisher id"),
            RoomError::InvalidRoom => String::from_str("invalid room"),
            RoomError::RemoteRequestFailed => String::from_str("request failed"),
            RoomError::EngineFailure => String::from_str("media engine failure"),
            RoomError::ReconnectExhausted => String::from_str(
                "can't reconnect to room: client failed to re-establish connection",
            ),
        }
    }
}

/// A change of the media engine's remote video subscriptions.
#[derive(Clone, Debug, PartialEq, Eq)]
pub enum VideoTrackUpdate {
    Subscribed { publisher_id: String, track_id: String },
    Unsubscribed { publisher_id: String, track_id: String },
}

/// A change of the media engine's remote audio subscriptions.
#[derive(Clone, Debug, PartialEq, Eq)]
pub enum AudioTrackUpdate {
    /// Publisher identifiers of the participants now speaking.
    ActiveSpeakersChanged { speakers: Vec<String> },
    MuteChanged { track_id: String, muted: bool },
    Subscribed { publisher_id: String, track_id: String, muted: bool },
    Unsubscribed { publisher_id: String, track_id: String },
}

/// One participant entry of a room snapshot pushed by the server.
#[derive(Clone, Debug, PartialEq, Eq)]
pub struct ParticipantState {
    pub user_id: u64,
    pub peer_id: Option<PeerId>,
    pub projects: Vec<ParticipantProject>,
    pub location: Option<ParticipantLocation>,
}

/// One follow relation of a room snapshot.
#[derive(Clone, Copy, Debug, PartialEq, Eq, Structural)]
pub struct FollowerEdge {
    pub leader_id: Option<PeerId>,
    pub follower_id: Option<PeerId>,
    pub project_id: Option<u64>,
}

/// The server's authoritative view of a room.
#[derive(Clone, Debug, PartialEq, Eq)]
pub struct RoomSnapshot {
    pub id: u64,
    pub participants: Vec<ParticipantState>,
    pub pending_participant_ids: Vec<u64>,
    pub followers: Vec<FollowerEdge>,
}

} // verus!
