//! The room aggregate: local participant, roster, shared and joined
//! projects, media session and the operations on them.
use std::collections::HashSet;
use vstd::prelude::*;
use crate::media::{
    mute_effects, publish_effects, published_track, superseded, track_muted, with_muted,
    LocalTrack, MediaSession, TrackKind,
};
use crate::roster::{
    accepted_ids, build_follower_table, departure_events, disconnect_effects, events_view,
    filter_pending, joined_after, lemma_pending_kept, merge_effects, merge_events, merge_from,
    merge_roster, merge_unshared, pending_kept, prune_joined, roster_ids, roster_map,
    roster_sorted, table_complete, table_followers, table_matches, user_ids, EventView,
    RemoteParticipant,
};
use crate::publisher::{parse_user_id, parsed_user_id};
use crate::roster::{lookup_project, registry_lookup, table_followers_of};
use crate::roster::{
    add_track, lemma_roster_map_at, lemma_roster_update, remove_track, roster_position,
    track_ids, with_track_id, without_track_id, ParticipantView,
};
use crate::types::{
    AudioTrackUpdate, ParticipantLocation, PeerId, VideoTrackUpdate,
    duplicate_projects, summaries, Effect, Event, FollowerEdge, ParticipantProject,
    ParticipantState, ProjectHandle, ProjectInfo, ProjectSummary, RoomError, RoomSnapshot,
    RoomStatus, Sound, User,
};

verus! {

broadcast use vstd::std_specs::hash::group_hash_axioms;

/// The local user's own published state.
#[derive(Clone, Debug, PartialEq, Eq)]
pub struct LocalParticipant {
    pub projects: Vec<ParticipantProject>,
    pub active_project: Option<ProjectHandle>,
}

/// A server snapshot waiting for its participants' identities.
struct PendingRoomUpdate {
    id: u64,
    participants: Vec<ParticipantState>,
    pending_ids: Vec<u64>,
    followers: Vec<FollowerEdge>,
}

/// Identities the runtime resolves before a snapshot can be merged. The
/// answers go to [`Room::complete_room_update`] under `update_id`.
#[derive(Clone, Debug, PartialEq, Eq)]
pub struct RosterRequest {
    pub update_id: u64,
    /// User ids of the snapshot's participants, in snapshot order.
    pub participant_user_ids: Vec<u64>,
    /// User ids of the snapshot's invitees, in snapshot order.
    pub pending_user_ids: Vec<u64>,
}

/// An outbound call request for the server.
#[derive(Clone, Copy, Debug, PartialEq, Eq, Structural)]
pub struct CallRequest {
    pub room_id: u64,
    pub called_user_id: u64,
    pub initial_project_id: Option<u64>,
}

/// How sharing a project starts.
#[derive(Clone, Copy, Debug, PartialEq, Eq, Structural)]
pub enum ShareProjectStart {
    /// The project is shared already, under this id.
    AlreadyShared { project_id: u64 },
    /// Ask the server to share the project in this room.
    Request { room_id: u64 },
}

/// The local user's location, to be sent to the server.
#[derive(Clone, Copy, Debug, PartialEq, Eq, Structural)]
pub struct LocationUpdate {
    pub room_id: u64,
    pub location: ParticipantLocation,
}

/// A project and the id under which the server knows it.
#[derive(Clone, Copy, Debug, PartialEq, Eq, Structural)]
pub struct ProjectRef {
    pub project: ProjectHandle,
    pub project_id: u64,
}

/// What a rejoin request carries: the projects the local user shares again
/// and the projects it rejoins as a guest.
#[derive(Clone, Debug, PartialEq, Eq)]
pub struct RejoinRequest {
    pub room_id: u64,
    pub reshared: Vec<ProjectRef>,
    pub rejoined: Vec<ProjectRef>,
}

/// The server's answer to a rejoin request.
#[derive(Clone, Debug, PartialEq, Eq)]
pub struct RejoinResponse {
    pub room: Option<RoomSnapshot>,
    /// Id of the response message, from which rejoined projects resume.
    pub message_id: u32,
    /// Ids of the projects the server took back as shared again.
    pub reshared_ids: Vec<u64>,
    /// Ids of the projects the server took back as rejoined.
    pub rejoined_ids: Vec<u64>,
}

/// Model of the snapshot a room waits to merge.
pub struct PendingView {
    pub id: u64,
    pub participants: Seq<ParticipantState>,
    pub pending_ids: Seq<u64>,
    pub followers: Seq<FollowerEdge>,
}

/// Model of a [`Room`].
pub struct RoomView {
    pub id: u64,
    pub channel_id: Option<u64>,
    pub local_user_id: u64,
    pub status: RoomStatus,
    pub media: Option<MediaSession>,
    pub shared_projects: Seq<ProjectHandle>,
    pub joined_projects: Seq<ProjectHandle>,
    pub local_projects: Seq<ProjectSummary>,
    pub active_project: Option<ProjectHandle>,
    /// Remote participants, ordered by user id.
    pub remote: Seq<RemoteParticipant>,
    pub pending: Seq<User>,
    /// Every user id the roster and the invitees account for.
    pub participant_user_ids: Set<u64>,
    pub pending_call_count: usize,
    pub leave_when_empty: bool,
    /// Complete follow edges, each (leader, project, follower) once.
    pub followers: Seq<FollowerEdge>,
    pub pending_update: Option<PendingView>,
    pub next_update_id: u64,
    pub events: Seq<EventView>,
    pub effects: Seq<Effect>,
}

/// One multi-participant call.
pub struct Room {
    id: u64,
    channel_id: Option<u64>,
    local_user_id: u64,
    status: RoomStatus,
    media: Option<MediaSession>,
    shared_projects: Vec<ProjectHandle>,
    joined_projects: Vec<ProjectHandle>,
    local_participant: LocalParticipant,
    remote_participants: Vec<RemoteParticipant>,
    pending_participants: Vec<User>,
    participant_user_ids: HashSet<u64>,
    pending_call_count: usize,
    leave_when_empty: bool,
    followers: Vec<FollowerEdge>,
    pending_room_update: Option<PendingRoomUpdate>,
    next_room_update_id: u64,
    events: Vec<Event>,
    effects: Vec<Effect>,
}

impl View for Room {
    type V = RoomView;

    closed spec fn view(&self) -> RoomView {
        RoomView {
            id: self.id,
            channel_id: self.channel_id,
            local_user_id: self.local_user_id,
            status: self.status,
            media: self.media,
            shared_projects: self.shared_projects@,
            joined_projects: self.joined_projects@,
            local_projects: summaries(self.local_participant.projects@),
            active_project: self.local_participant.active_project,
            remote: self.remote_participants@,
            pending: self.pending_participants@,
            participant_user_ids: self.participant_user_ids@,
            pending_call_count: self.pending_call_count,
            leave_when_empty: self.leave_when_empty,
            followers: self.followers@,
            pending_update: match self.pending_room_update {
                Some(p) => Some(
                    PendingView {
                        id: p.id,
                        participants: p.participants@,
                        pending_ids: p.pending_ids@,
                        followers: p.followers@,
                    },
                ),
                None => None,
            },
            next_update_id: self.next_room_update_id,
            events: events_view(self.events@),
            effects: self.effects@,
        }
    }
}

/// The snapshot entry that describes the local user: the first one that
/// names them.
pub open spec fn local_entry(cands: Seq<ParticipantState>, local: u64) -> Option<ParticipantState>
    decreases cands.len(),
{
    if cands.len() == 0 {
        None
    } else {
        match local_entry(cands.drop_last(), local) {
            Some(c) => Some(c),
            None => if cands.last().user_id == local {
                Some(cands.last())
            } else {
                None
            },
        }
    }
}

/// Effects of leaving: the departure sound, unsharing every shared project,
/// closing every joined project, and telling the server.
pub open spec fn leave_effects(shared: Seq<ProjectHandle>, joined: Seq<ProjectHandle>) -> Seq<Effect> {
    seq![Effect::PlaySound { sound: Sound::Leave }] + shared.map_values(
        |h: ProjectHandle| Effect::UnshareProject { project: h },
    ) + joined.map_values(|h: ProjectHandle| Effect::CloseJoinedProject { project: h })
        + seq![Effect::SendLeaveRoom]
}

pub proof fn lemma_local_entry_prefix(cands: Seq<ParticipantState>, local: u64, i: int, m: int)
    requires
        0 <= i < m <= cands.len(),
        local_entry(cands.subrange(0, i + 1), local) is Some,
    ensures
        local_entry(cands.subrange(0, m), local) == local_entry(cands.subrange(0, i + 1), local),
    decreases m - i,
{
    if m > i + 1 {
        lemma_local_entry_prefix(cands, local, i, m - 1);
        assert(cands.subrange(0, m).drop_last() =~= cands.subrange(0, m - 1));
    }
}

/// Projects of the local user's own snapshot entry; none without an entry.
pub open spec fn local_projects_in(cands: Seq<ParticipantState>, local: u64) -> Seq<ProjectSummary> {
    match local_entry(cands, local) {
        Some(c) => summaries(c.projects@),
        None => Seq::empty(),
    }
}

fn local_projects_of(cands: &Vec<ParticipantState>, local: u64) -> (r: Vec<ParticipantProject>)
    ensures
        summaries(r@) == local_projects_in(cands@, local),
{
    let mut i: usize = 0;
    while i < cands.len()
        invariant
            i <= cands@.len(),
            local_entry(cands@.subrange(0, i as int), local) is None,
        decreases cands@.len() - i,
    {
        let ghost sub = cands@.subrange(0, i + 1);
        assert(sub.drop_last() =~= cands@.subrange(0, i as int));
        if cands[i].user_id == local {
            proof {
                lemma_local_entry_prefix(cands@, local, i as int, cands@.len() as int);
                assert(cands@.subrange(0, cands@.len() as int) == cands@);
            }
            return duplicate_projects(&cands[i].projects);
        }
        i = i + 1;
    }
    assert(cands@.subrange(0, cands@.len() as int) == cands@);
    let r: Vec<ParticipantProject> = Vec::new();
    assert(summaries(r@) =~= Seq::<ProjectSummary>::empty());
    r
}

proof fn lemma_push_to_set(s: Seq<u64>, x: u64)
    ensures
        s.push(x).to_set() == s.to_set().insert(x),
{
    assert forall|y: u64| s.push(x).to_set().contains(y) == s.to_set().insert(x).contains(y) by {
        if s.contains(y) {
            let i = choose|i: int| 0 <= i < s.len() && s[i] == y;
            assert(s.push(x)[i] == y);
        }
        if s.push(x).contains(y) {
            let i = choose|i: int| 0 <= i < s.push(x).len() && s.push(x)[i] == y;
            if i < s.len() {
                assert(s[i] == y);
            }
        }
        assert(s.push(x)[s.len() as int] == x);
    }
    assert(s.push(x).to_set() =~= s.to_set().insert(x));
}

fn participant_ids_of(remote: &Vec<RemoteParticipant>, pending: &Vec<User>) -> (r: HashSet<u64>)
    ensures
        r@ == (roster_ids(remote@) + user_ids(pending@)).to_set(),
{
    let mut r: HashSet<u64> = HashSet::new();
    let mut k: usize = 0;
    while k < remote.len()
        invariant
            k <= remote@.len(),
            r@ =~= roster_ids(remote@.subrange(0, k as int)).to_set(),
        decreases remote@.len() - k,
    {
        let ghost before = roster_ids(remote@.subrange(0, k as int));
        r.insert(remote[k].user.id);
        proof {
            lemma_push_to_set(before, remote@[k as int].user.id);
        }
        k = k + 1;
        assert(roster_ids(remote@.subrange(0, k as int)) =~= before.push(remote@[k - 1].user.id));
    }
    assert(remote@.subrange(0, remote@.len() as int) == remote@);
    let ghost first = roster_ids(remote@);
    k = 0;
    while k < pending.len()
        invariant
            k <= pending@.len(),
            r@ =~= (first + user_ids(pending@.subrange(0, k as int))).to_set(),
        decreases pending@.len() - k,
    {
        let ghost before = first + user_ids(pending@.subrange(0, k as int));
        r.insert(pending[k].id);
        proof {
            lemma_push_to_set(before, pending@[k as int].id);
        }
        k = k + 1;
        assert(first + user_ids(pending@.subrange(0, k as int)) =~= before.push(pending@[k - 1].id));
    }
    assert(pending@.subrange(0, pending@.len() as int) == pending@);
    r
}

pub proof fn lemma_accepted_not_local(cands: Seq<ParticipantState>, users: Seq<User>, local: u64, n: int)
    ensures
        !accepted_ids(cands, users, local, n).contains(local),
    decreases n,
{
    if n > 0 {
        lemma_accepted_not_local(cands, users, local, n - 1);
    }
}

pub proof fn lemma_merge_keys(
    base: Map<u64, crate::roster::ParticipantView>,
    cands: Seq<ParticipantState>,
    users: Seq<User>,
    local: u64,
    n: int,
    x: u64,
)
    requires
        n <= cands.len(),
        merge_from(base, cands, users, local, n).contains_key(x),
    ensures
        accepted_ids(cands, users, local, cands.len() as int).contains(x),
    decreases n,
{
    if n > 0 {
        let prev = accepted_ids(cands, users, local, n - 1);
        if crate::roster::entry_accepted(cands, users, local, n - 1) && x == cands[n - 1].user_id {
            assert(accepted_ids(cands, users, local, n)[prev.len() as int] == x);
            crate::roster::lemma_accepted_grows(cands, users, local, n, cands.len() as int, x);
        } else {
            lemma_merge_keys(base, cands, users, local, n - 1, x);
        }
    }
}

pub open spec fn users_view(u: Option<Vec<User>>) -> Option<Seq<User>> {
    match u {
        Some(v) => Some(v@),
        None => None,
    }
}

/// Project ids that the merge of `o`'s pending snapshot found unshared.
pub open spec fn unshared_by(o: RoomView, remote: Option<Seq<User>>) -> Seq<u64> {
    let cands = o.pending_update->0.participants;
    match remote {
        Some(us) => merge_unshared(o.roster(), cands, us, o.local_user_id, cands.len() as int),
        None => Seq::empty(),
    }
}

/// Joined projects after the merge of `o`'s pending snapshot.
pub open spec fn joined_mid(o: RoomView, remote: Option<Seq<User>>, reg: Seq<ProjectInfo>) -> Seq<ProjectHandle> {
    match remote {
        Some(us) => joined_after(o.joined_projects, reg, unshared_by(o, remote)),
        None => o.joined_projects,
    }
}

/// Events after the merge of `o`'s pending snapshot: departures, then the
/// changes of each accepted entry.
pub open spec fn events_mid(o: RoomView, remote: Option<Seq<User>>) -> Seq<EventView> {
    let cands = o.pending_update->0.participants;
    let n = cands.len() as int;
    match remote {
        Some(us) => o.events + departure_events(o.remote, accepted_ids(cands, us, o.local_user_id, n))
            + merge_events(o.roster(), cands, us, o.local_user_id, n),
        None => o.events,
    }
}

/// Effects after the merge of `o`'s pending snapshot.
pub open spec fn effects_mid(o: RoomView, remote: Option<Seq<User>>, reg: Seq<ProjectInfo>) -> Seq<Effect> {
    let cands = o.pending_update->0.participants;
    let n = cands.len() as int;
    match remote {
        Some(us) => o.effects + merge_effects(o.roster(), cands, us, o.local_user_id, o.media is Some, n)
            + disconnect_effects(o.joined_projects, reg, unshared_by(o, remote)),
        None => o.effects,
    }
}

/// The merge emptied a room that leaves when empty.
pub open spec fn leaves_after(o: RoomView, f: RoomView) -> bool {
    o.leave_when_empty && f.pending.len() == 0 && f.remote.len() == 0 && o.pending_call_count == 0
}

/// What the merge of `o`'s pending snapshot makes of the roster, the
/// invitees, the follower table and the local participant.
pub open spec fn merged_parts(o: RoomView, f: RoomView, remote: Option<Seq<User>>, pending: Option<Seq<User>>) -> bool {
    let cands = o.pending_update->0.participants;
    let n = cands.len() as int;
    let local = o.local_user_id;
    &&& f.local_projects == local_projects_in(cands, local)
    &&& remote matches Some(us) ==> f.roster() == merge_from(o.roster(), cands, us, local, n)
    &&& remote is None ==> f.remote == o.remote
    &&& f.pending == pending_kept(
        match pending {
            Some(us) => us,
            None => o.pending,
        },
        f.roster().dom(),
        local,
    )
    &&& f.participant_user_ids == (roster_ids(f.remote) + user_ids(f.pending)).to_set()
    &&& table_matches(f.followers, o.pending_update->0.followers)
    &&& f.pending_update is None
    &&& f.id == o.id && f.channel_id == o.channel_id && f.local_user_id == o.local_user_id
    &&& f.active_project == o.active_project && f.pending_call_count == o.pending_call_count
    &&& f.leave_when_empty == o.leave_when_empty && f.next_update_id == o.next_update_id
}

/// In every well-formed room each remote and each pending participant is
/// accounted for by exactly one user id, and the local user is in neither
/// roster.
pub proof fn lemma_participant_accounting(room: &Room)
    requires
        room.wf(),
    ensures
        room@.participant_user_ids.len() == room@.remote.len() + room@.pending.len(),
        room@.participant_user_ids == room@.roster().dom().union(user_ids(room@.pending).to_set()),
        !room@.roster().contains_key(room@.local_user_id),
        !user_ids(room@.pending).contains(room@.local_user_id),
        roster_sorted(room@.remote),
        room@.roster().dom().disjoint(user_ids(room@.pending).to_set()),
{
    let v = room@;
    let ids = roster_ids(v.remote) + user_ids(v.pending);
    let rn = v.remote.len() as int;
    assert forall|a: int, b: int| 0 <= a < b < ids.len() implies ids[a] != ids[b] by {
        if b < rn {
            assert(v.remote[a].user.id < v.remote[b].user.id);
        } else if a >= rn {
            assert(ids[a] == v.pending[a - rn].id);
            assert(ids[b] == v.pending[b - rn].id);
        } else {
            crate::roster::lemma_roster_map_at(v.remote, a);
            assert(ids[b] == v.pending[b - rn].id);
        }
    }
    assert(ids.no_duplicates());
    ids.unique_seq_to_set();
    assert forall|x: u64| ids.to_set().contains(x) <==> v.roster().dom().union(user_ids(v.pending).to_set()).contains(x) by {
        if ids.to_set().contains(x) {
            let k = choose|k: int| 0 <= k < ids.len() && ids[k] == x;
            if k < rn {
                crate::roster::lemma_roster_map_at(v.remote, k);
            } else {
                assert(user_ids(v.pending)[k - rn] == x);
            }
        }
        if v.roster().contains_key(x) {
            let k = choose|k: int| 0 <= k < v.remote.len() && #[trigger] v.remote[k].user.id == x;
            assert(ids[k] == x);
        }
        if user_ids(v.pending).contains(x) {
            let k = choose|k: int| 0 <= k < user_ids(v.pending).len() && user_ids(v.pending)[k] == x;
            assert(ids[k + rn] == x);
        }
    }
    assert(ids.to_set() =~= v.roster().dom().union(user_ids(v.pending).to_set()));
    if v.roster().contains_key(v.local_user_id) {
        let k = choose|k: int| 0 <= k < v.remote.len() && #[trigger] v.remote[k].user.id == v.local_user_id;
        assert(v.remote[k].user.id != v.local_user_id);
    }
    assert forall|x: u64| v.roster().dom().contains(x) implies !user_ids(v.pending).to_set().contains(x) by {
        if user_ids(v.pending).contains(x) {
            let k = choose|k: int| 0 <= k < user_ids(v.pending).len() && user_ids(v.pending)[k] == x;
            assert(v.pending[k].id == x);
        }
    }
    if user_ids(v.pending).contains(v.local_user_id) {
        let k = choose|k: int| 0 <= k < user_ids(v.pending).len() && user_ids(v.pending)[k] == v.local_user_id;
        assert(v.pending[k].id != v.local_user_id);
    }
}

/// What sharing a track of `kind` returns in room `o`.
pub open spec fn share_result(o: RoomView, kind: TrackKind) -> Result<u64, RoomError> {
    if o.status == RoomStatus::Offline {
        Err(RoomError::Offline)
    } else {
        match o.media {
            Some(m) => if m.track(kind) is Idle {
                Ok(m.next_publish_id)
            } else {
                Err(RoomError::AlreadyInProgress)
            },
            None => Err(RoomError::MediaNotStarted),
        }
    }
}

/// Remote audio playback switched on or off for each participant, in roster
/// order.
pub open spec fn audio_enable_effects(remote: Seq<RemoteParticipant>, enabled: bool) -> Seq<Effect> {
    remote.map_values(|p: RemoteParticipant| Effect::SetRemoteAudioEnabled { user_id: p.user.id, enabled })
}

/// Whether deafening toggles in room `o`.
pub open spec fn deafen_result(o: RoomView) -> Result<(), RoomError> {
    match o.media {
        Some(m) => if (!m.deafened || !m.muted_by_user) && m.microphone_track is Idle {
            Err(RoomError::NotShared)
        } else {
            Ok(())
        },
        None => Err(RoomError::MediaNotStarted),
    }
}

/// Room `o` after deafening toggles.
pub open spec fn deafened_view(o: RoomView) -> RoomView {
    let m = o.media->0;
    let deafen = !m.deafened;
    let remute = deafen || !m.muted_by_user;
    let m2 = if remute {
        MediaSession {
            microphone_track: with_muted(m.microphone_track, deafen),
            muted_by_user: if deafen { m.muted_by_user } else { false },
            ..m
        }
    } else {
        m
    };
    let mute_fx = if remute { mute_effects(m.microphone_track, deafen) } else { Seq::empty() };
    RoomView {
        media: Some(MediaSession { deafened: deafen, ..m2 }),
        effects: o.effects + mute_fx + audio_enable_effects(o.remote, !deafen),
        ..o
    }
}

/// The remote participant `uid` with a track id added to or removed from its
/// video (`video`) or audio tracks.
pub open spec fn track_changed(p: ParticipantView, video: bool, subscribed: bool, t: Seq<char>) -> ParticipantView {
    let apply = |s: Seq<Seq<char>>| if subscribed { with_track_id(s, t) } else { without_track_id(s, t) };
    if video {
        ParticipantView { video_tracks: apply(p.video_tracks), ..p }
    } else {
        ParticipantView { audio_tracks: apply(p.audio_tracks), ..p }
    }
}

/// How room `o` answers a subscription change of the track `track` published
/// by `publisher`; `muted` is the audio track's mute state, if any.
pub open spec fn track_update_outcome(
    o: RoomView,
    f: RoomView,
    r: Result<(), RoomError>,
    publisher: Seq<char>,
    track: Seq<char>,
    video: bool,
    subscribed: bool,
    muted: Option<bool>,
) -> bool {
    match parsed_user_id(publisher) {
        None => r == Err::<(), RoomError>(RoomError::InvalidPublisher) && f == o,
        Some(uid) => if !o.roster().contains_key(uid) {
            r == Err::<(), RoomError>(RoomError::NotFound) && f == o
        } else {
            let p = o.roster()[uid];
            let changed = track_changed(p, video, subscribed, track);
            let entry = match muted {
                Some(m) => ParticipantView { muted: m, ..changed },
                None => changed,
            };
            let ev = if video {
                EventView::RemoteVideoTracksChanged { participant_id: p.peer_id }
            } else {
                EventView::RemoteAudioTracksChanged { participant_id: p.peer_id }
            };
            &&& r is Ok
            &&& f.roster() == o.roster().insert(uid, entry)
            &&& f == (RoomView { remote: f.remote, events: o.events.push(ev), ..o })
        },
    }
}

/// User ids of the publishers in a list of speaker identifiers; those that
/// name no user are skipped.
pub open spec fn speaker_ids(ss: Seq<Seq<char>>) -> Seq<u64>
    decreases ss.len(),
{
    if ss.len() == 0 {
        Seq::empty()
    } else {
        speaker_ids(ss.drop_last()) + match parsed_user_id(ss.last()) {
            Some(id) => seq![id],
            None => Seq::empty(),
        }
    }
}

/// Index of the first remote participant holding audio track `t`.
pub open spec fn audio_holder(s: Seq<RemoteParticipant>, t: Seq<char>) -> Option<int>
    decreases s.len(),
{
    if s.len() == 0 {
        None
    } else {
        match audio_holder(s.drop_last(), t) {
            Some(i) => Some(i),
            None => if s.last()@.audio_tracks.contains(t) {
                Some(s.len() - 1)
            } else {
                None
            },
        }
    }
}

pub proof fn lemma_holder_prefix(s: Seq<RemoteParticipant>, t: Seq<char>, k: int, m: int)
    requires
        0 <= k < m <= s.len(),
        audio_holder(s.subrange(0, k), t) is None,
        s[k]@.audio_tracks.contains(t),
    ensures
        audio_holder(s.subrange(0, m), t) == Some(k),
    decreases m - k,
{
    assert(s.subrange(0, k + 1).drop_last() =~= s.subrange(0, k));
    if m > k + 1 {
        lemma_holder_prefix(s, t, k, m - 1);
        assert(s.subrange(0, m).drop_last() =~= s.subrange(0, m - 1));
    }
}

fn contains_handle(v: &Vec<ProjectHandle>, h: ProjectHandle) -> (r: bool)
    ensures
        r == v@.contains(h),
{
    let mut k: usize = 0;
    while k < v.len()
        invariant
            k <= v@.len(),
            forall|j: int| 0 <= j < k ==> v@[j] != h,
        decreases v@.len() - k,
    {
        if v[k] == h {
            assert(v@[k as int] == h);
            return true;
        }
        k = k + 1;
    }
    false
}

/// The location the local user publishes for an active project: shared
/// under its remote id, unshared, or outside any project.
pub open spec fn location_for(project: Option<ProjectHandle>, remote_id: Option<u64>) -> ParticipantLocation {
    match project {
        Some(_) => match remote_id {
            Some(id) => ParticipantLocation::SharedProject { project_id: id },
            None => ParticipantLocation::UnsharedProject,
        },
        None => ParticipantLocation::External,
    }
}

/// A handle sequence with `h` added once.
pub open spec fn with_handle(s: Seq<ProjectHandle>, h: ProjectHandle) -> Seq<ProjectHandle> {
    if s.contains(h) {
        s
    } else {
        s.push(h)
    }
}

/// Joined projects that are still open and writable.
pub open spec fn joined_writable(joined: Seq<ProjectHandle>, reg: Seq<ProjectInfo>) -> Seq<ProjectHandle>
    decreases joined.len(),
{
    if joined.len() == 0 {
        Seq::empty()
    } else {
        let prev = joined_writable(joined.drop_last(), reg);
        if registry_lookup(reg, joined.last()) matches Some(info) && !info.read_only {
            prev.push(joined.last())
        } else {
            prev
        }
    }
}

/// Shared projects that are still open and have a remote id.
pub open spec fn reshareable(shared: Seq<ProjectHandle>, reg: Seq<ProjectInfo>) -> Seq<ProjectRef>
    decreases shared.len(),
{
    if shared.len() == 0 {
        Seq::empty()
    } else {
        let prev = reshareable(shared.drop_last(), reg);
        match registry_lookup(reg, shared.last()) {
            Some(info) => match info.remote_id {
                Some(id) => prev.push(ProjectRef { project: shared.last(), project_id: id }),
                None => prev,
            },
            None => prev,
        }
    }
}

pub open spec fn refs_handles(refs: Seq<ProjectRef>) -> Seq<ProjectHandle> {
    refs.map_values(|r: ProjectRef| r.project)
}

/// Joined projects that are still open.
pub open spec fn joined_open(joined: Seq<ProjectHandle>, reg: Seq<ProjectInfo>) -> Seq<ProjectHandle>
    decreases joined.len(),
{
    if joined.len() == 0 {
        Seq::empty()
    } else {
        let prev = joined_open(joined.drop_last(), reg);
        if registry_lookup(reg, joined.last()) is Some {
            prev.push(joined.last())
        } else {
            prev
        }
    }
}

/// Open joined projects with a remote id, to be rejoined.
pub open spec fn rejoinable(joined: Seq<ProjectHandle>, reg: Seq<ProjectInfo>) -> Seq<ProjectRef>
    decreases joined.len(),
{
    if joined.len() == 0 {
        Seq::empty()
    } else {
        let prev = rejoinable(joined.drop_last(), reg);
        match registry_lookup(reg, joined.last()) {
            Some(info) => match info.remote_id {
                Some(id) => prev.push(ProjectRef { project: joined.last(), project_id: id }),
                None => prev,
            },
            None => prev,
        }
    }
}

/// When the identities resolved and the pending snapshot repeats the roster,
/// the merge adds no event; the room only announces `Left` if it then
/// leaves because it is empty.
pub proof fn lemma_repeated_snapshot_no_events(o: RoomView, users: Seq<User>)
    requires
        o.pending_update is Some,
        roster_sorted(o.remote),
        crate::roster::snapshot_repeats(o.roster(), o.pending_update->0.participants, users, o.local_user_id),
    ensures
        events_mid(o, Some(users)) == o.events,
{
    crate::roster::lemma_repeated_snapshot_silent(o.remote, o.pending_update->0.participants, users, o.local_user_id);
    assert(events_mid(o, Some(users)) =~= o.events);
}

/// The project a rejoin request sent under `id`; a project rejoined as a
/// guest takes precedence over one shared again under the same id.
pub open spec fn ref_lookup(refs: Seq<ProjectRef>, id: u64) -> Option<ProjectHandle>
    decreases refs.len(),
{
    if refs.len() == 0 {
        None
    } else if refs.last().project_id == id {
        Some(refs.last().project)
    } else {
        ref_lookup(refs.drop_last(), id)
    }
}

/// Every project a rejoin request sent.
pub open spec fn request_refs(req: RejoinRequest) -> Seq<ProjectRef> {
    req.reshared@ + req.rejoined@
}

/// Projects that resume as shared again, for the ids the server took back.
pub open spec fn reshared_effects(refs: Seq<ProjectRef>, ids: Seq<u64>) -> Seq<Effect>
    decreases ids.len(),
{
    if ids.len() == 0 {
        Seq::empty()
    } else {
        reshared_effects(refs, ids.drop_last()) + match ref_lookup(refs, ids.last()) {
            Some(h) => seq![Effect::ProjectReshared { project: h }],
            None => Seq::empty(),
        }
    }
}

/// Projects that resume as rejoined, for the ids the server took back.
pub open spec fn rejoined_effects(refs: Seq<ProjectRef>, ids: Seq<u64>, message_id: u32) -> Seq<Effect>
    decreases ids.len(),
{
    if ids.len() == 0 {
        Seq::empty()
    } else {
        rejoined_effects(refs, ids.drop_last(), message_id) + match ref_lookup(refs, ids.last()) {
            Some(h) => seq![Effect::ProjectRejoined { project: h, message_id }],
            None => Seq::empty(),
        }
    }
}

fn lookup_ref(refs: &Vec<ProjectRef>, id: u64) -> (r: Option<ProjectHandle>)
    ensures
        r == ref_lookup(refs@, id),
{
    let mut k: usize = refs.len();
    assert(refs@.subrange(0, k as int) == refs@);
    while k > 0
        invariant
            k <= refs@.len(),
            ref_lookup(refs@, id) == ref_lookup(refs@.subrange(0, k as int), id),
        decreases k,
    {
        let ghost sub = refs@.subrange(0, k as int);
        assert(sub.drop_last() =~= refs@.subrange(0, k - 1));
        if refs[k - 1].project_id == id {
            return Some(refs[k - 1].project);
        }
        k = k - 1;
    }
    None
}

/// Effects telling each project the server took back to resume syncing.
fn resume_effects(refs: &Vec<ProjectRef>, reshared_ids: &Vec<u64>, rejoined_ids: &Vec<u64>, message_id: u32) -> (r: Vec<Effect>)
    ensures
        r@ == reshared_effects(refs@, reshared_ids@) + rejoined_effects(refs@, rejoined_ids@, message_id),
{
    let mut r: Vec<Effect> = Vec::new();
    let mut k: usize = 0;
    while k < reshared_ids.len()
        invariant
            k <= reshared_ids@.len(),
            r@ == reshared_effects(refs@, reshared_ids@.subrange(0, k as int)),
        decreases reshared_ids@.len() - k,
    {
        let ghost sub = reshared_ids@.subrange(0, k + 1);
        assert(sub.drop_last() =~= reshared_ids@.subrange(0, k as int));
        match lookup_ref(refs, reshared_ids[k]) {
            Some(h) => r.push(Effect::ProjectReshared { project: h }),
            None => {},
        }
        k = k + 1;
        assert(r@ =~= reshared_effects(refs@, reshared_ids@.subrange(0, k as int)));
    }
    assert(reshared_ids@.subrange(0, k as int) == reshared_ids@);
    let ghost first = r@;
    k = 0;
    while k < rejoined_ids.len()
        invariant
            k <= rejoined_ids@.len(),
            r@ == first + rejoined_effects(refs@, rejoined_ids@.subrange(0, k as int), message_id),
        decreases rejoined_ids@.len() - k,
    {
        let ghost sub = rejoined_ids@.subrange(0, k + 1);
        assert(sub.drop_last() =~= rejoined_ids@.subrange(0, k as int));
        match lookup_ref(refs, rejoined_ids[k]) {
            Some(h) => r.push(Effect::ProjectRejoined { project: h, message_id }),
            None => {},
        }
        k = k + 1;
        assert(r@ =~= first + rejoined_effects(refs@, rejoined_ids@.subrange(0, k as int), message_id));
    }
    assert(rejoined_ids@.subrange(0, k as int) == rejoined_ids@);
    r
}

fn request_ref_list(req: &RejoinRequest) -> (r: Vec<ProjectRef>)
    ensures
        r@ == request_refs(*req),
{
    let mut r: Vec<ProjectRef> = Vec::new();
    let mut k: usize = 0;
    while k < req.reshared.len()
        invariant
            k <= req.reshared@.len(),
            r@ =~= req.reshared@.subrange(0, k as int),
        decreases req.reshared@.len() - k,
    {
        r.push(req.reshared[k]);
        k = k + 1;
    }
    k = 0;
    while k < req.rejoined.len()
        invariant
            k <= req.rejoined@.len(),
            r@ =~= req.reshared@ + req.rejoined@.subrange(0, k as int),
        decreases req.rejoined@.len() - k,
    {
        r.push(req.rejoined[k]);
        k = k + 1;
    }
    r
}

/// A room just constructed: online, with nothing in it, having asked for the
/// join chime.
pub open spec fn fresh_view(id: u64, channel_id: Option<u64>, local_user_id: u64, with_media: bool) -> RoomView {
    RoomView {
        id,
        channel_id,
        local_user_id,
        status: RoomStatus::Online,
        media: if with_media {
            Some(MediaSession::new_spec())
        } else {
            None
        },
        shared_projects: Seq::empty(),
        joined_projects: Seq::empty(),
        local_projects: Seq::empty(),
        active_project: None,
        remote: Seq::empty(),
        pending: Seq::empty(),
        participant_user_ids: Set::empty(),
        pending_call_count: 0,
        leave_when_empty: false,
        followers: Seq::empty(),
        pending_update: None,
        next_update_id: 0,
        events: Seq::empty(),
        effects: seq![Effect::PlaySound { sound: Sound::Joined }],
    }
}

/// A well-formed room that is offline holds nothing: no media session, no
/// roster, no invitees, no projects and no merge in flight.
pub proof fn lemma_offline_room_empty(room: &Room)
    requires
        room.wf(),
        room@.status == RoomStatus::Offline,
    ensures
        room@.media is None,
        room@.remote.len() == 0,
        room@.pending.len() == 0,
        room@.participant_user_ids.len() == 0,
        room@.pending_update is None,
        room@.shared_projects.len() == 0,
        room@.joined_projects.len() == 0,
{
    assert(roster_ids(room@.remote) + user_ids(room@.pending) =~= Seq::<u64>::empty());
    assert(room@.participant_user_ids =~= Set::<u64>::empty());
}

/// Merging a snapshot that repeats the roster, once the identities resolved,
/// asks for no join chime, no track hydration and no project disconnect.
pub proof fn lemma_repeated_snapshot_no_effects(o: RoomView, users: Seq<User>, reg: Seq<ProjectInfo>)
    requires
        o.pending_update is Some,
        roster_sorted(o.remote),
        crate::roster::snapshot_repeats(o.roster(), o.pending_update->0.participants, users, o.local_user_id),
    ensures
        effects_mid(o, Some(users), reg) == o.effects,
        unshared_by(o, Some(users)) == Seq::<u64>::empty(),
{
    let cands = o.pending_update->0.participants;
    crate::roster::lemma_repeated_snapshot_quiet(o.roster(), cands, users, o.local_user_id, o.media is Some, cands.len() as int);
    crate::roster::lemma_no_disconnects(o.joined_projects, reg);
    assert(effects_mid(o, Some(users), reg) =~= o.effects);
}

/// In a well-formed room whose pending snapshot repeats the roster, merging
/// it with the resolved identities adds no event and asks for no join chime,
/// track hydration or project disconnect.
pub proof fn lemma_room_repeated_snapshot(room: &Room, users: Seq<User>, reg: Seq<ProjectInfo>)
    requires
        room.wf(),
        room@.pending_update is Some,
        crate::roster::snapshot_repeats(room@.roster(), room@.pending_update->0.participants, users, room@.local_user_id),
    ensures
        events_mid(room@, Some(users)) == room@.events,
        effects_mid(room@, Some(users), reg) == room@.effects,
{
    lemma_participant_accounting(room);
    lemma_repeated_snapshot_no_events(room@, users);
    lemma_repeated_snapshot_no_effects(room@, users, reg);
}

impl RoomView {
    /// The roster keyed by user id.
    pub open spec fn roster(self) -> Map<u64, crate::roster::ParticipantView> {
        roster_map(self.remote)
    }

    /// The auto-leave condition.
    pub open spec fn should_leave(self) -> bool {
        &&& self.leave_when_empty
        &&& self.pending_update is None
        &&& self.pending.len() == 0
        &&& self.remote.len() == 0
        &&& self.pending_call_count == 0
    }

    /// The room after leaving: offline, with no roster, media session,
    /// projects or in-flight merge.
    pub open spec fn left(self) -> RoomView {
        RoomView {
            status: RoomStatus::Offline,
            media: None,
            shared_projects: Seq::empty(),
            joined_projects: Seq::empty(),
            remote: Seq::empty(),
            pending: Seq::empty(),
            participant_user_ids: Set::empty(),
            pending_update: None,
            effects: self.effects + leave_effects(self.shared_projects, self.joined_projects),
            ..self
        }
    }
}

impl Room {
    pub closed spec fn wf(&self) -> bool {
        &&& roster_sorted(self.remote_participants@)
        &&& forall|k: int| 0 <= k < self.remote_participants@.len()
            ==> (#[trigger] self.remote_participants@[k]).user.id != self.local_user_id
        &&& forall|k: int| 0 <= k < self.pending_participants@.len() ==> {
            let u = #[trigger] self.pending_participants@[k];
            u.id != self.local_user_id && !roster_map(self.remote_participants@).contains_key(u.id)
        }
        &&& forall|a: int, b: int| 0 <= a < b < self.pending_participants@.len()
            ==> (#[trigger] self.pending_participants@[a]).id != (#[trigger] self.pending_participants@[b]).id
        &&& self.participant_user_ids@ == (roster_ids(self.remote_participants@) + user_ids(self.pending_participants@)).to_set()
        &&& table_complete(self.followers@)
        &&& self.status == RoomStatus::Offline ==> {
            &&& self.media is None
            &&& self.remote_participants@.len() == 0
            &&& self.pending_participants@.len() == 0
            &&& self.pending_room_update is None
            &&& self.shared_projects@.len() == 0
            &&& self.joined_projects@.len() == 0
        }
    }

    /// Constructs an online room with an empty roster. `with_media` says
    /// whether the server handed out media connection details.
    pub fn new(id: u64, channel_id: Option<u64>, local_user_id: u64, with_media: bool) -> (r: Room)
        ensures
            r.wf(),
            r@ == fresh_view(id, channel_id, local_user_id, with_media),
    {
        let media = if with_media {
            Some(MediaSession::new())
        } else {
            None
        };
        let mut effects: Vec<Effect> = Vec::new();
        effects.push(Effect::PlaySound { sound: Sound::Joined });
        let r = Room {
            id,
            channel_id,
            local_user_id,
            status: RoomStatus::Online,
            media,
            shared_projects: Vec::new(),
            joined_projects: Vec::new(),
            local_participant: LocalParticipant { projects: Vec::new(), active_project: None },
            remote_participants: Vec::new(),
            pending_participants: Vec::new(),
            participant_user_ids: HashSet::new(),
            pending_call_count: 0,
            leave_when_empty: false,
            followers: Vec::new(),
            pending_room_update: None,
            next_room_update_id: 0,
            events: Vec::new(),
            effects,
        };
        proof {
            assert(summaries(r.local_participant.projects@) =~= Seq::<ProjectSummary>::empty());
            assert(events_view(r.events@) =~= Seq::<EventView>::empty());
            assert(r.participant_user_ids@ =~= (roster_ids(r.remote_participants@) + user_ids(r.pending_participants@)).to_set());
            let f = fresh_view(id, channel_id, local_user_id, with_media);
            assert(r@.shared_projects =~= f.shared_projects);
            assert(r@.joined_projects =~= f.joined_projects);
            assert(r@.remote =~= f.remote);
            assert(r@.pending =~= f.pending);
            assert(r@.participant_user_ids =~= f.participant_user_ids);
            assert(r@.followers =~= f.followers);
            assert(r@.effects =~= f.effects);
            assert(r@ == f);
        }
        r
    }

    /// Starts merging a server snapshot: records it as the one merge in
    /// flight, superseding any earlier one, and asks for the identities of
    /// its participants and invitees.
    pub fn apply_room_update(&mut self, snapshot: RoomSnapshot) -> (r: Result<RosterRequest, RoomError>)
        requires
            old(self).wf(),
        ensures
            final(self).wf(),
            old(self)@.status == RoomStatus::Offline ==> r == Err::<RosterRequest, RoomError>(RoomError::Offline)
                && final(self)@ == old(self)@,
            old(self)@.status != RoomStatus::Offline ==> {
                &&& r is Ok
                &&& r->Ok_0.update_id == old(self)@.next_update_id
                &&& r->Ok_0.participant_user_ids@ == snapshot.participants@.map_values(|p: ParticipantState| p.user_id)
                &&& r->Ok_0.pending_user_ids@ == snapshot.pending_participant_ids@
                &&& final(self)@ == (RoomView {
                    pending_update: Some(PendingView {
                        id: old(self)@.next_update_id,
                        participants: snapshot.participants@,
                        pending_ids: snapshot.pending_participant_ids@,
                        followers: snapshot.followers@,
                    }),
                    next_update_id: old(self)@.next_update_id.wrapping_add(1),
                    ..old(self)@
                })
            },
    {
        if self.status.is_offline() {
            return Err(RoomError::Offline);
        }
        Ok(self.start_room_update(snapshot))
    }

    fn start_room_update(&mut self, snapshot: RoomSnapshot) -> (r: RosterRequest)
        requires
            old(self).wf(),
            old(self)@.status != RoomStatus::Offline,
        ensures
            final(self).wf(),
            r.update_id == old(self)@.next_update_id,
            r.participant_user_ids@ == snapshot.participants@.map_values(|p: ParticipantState| p.user_id),
            r.pending_user_ids@ == snapshot.pending_participant_ids@,
            final(self)@ == (RoomView {
                pending_update: Some(PendingView {
                    id: old(self)@.next_update_id,
                    participants: snapshot.participants@,
                    pending_ids: snapshot.pending_participant_ids@,
                    followers: snapshot.followers@,
                }),
                next_update_id: old(self)@.next_update_id.wrapping_add(1),
                ..old(self)@
            }),
    {
        let update_id = self.next_room_update_id;
        self.next_room_update_id = self.next_room_update_id.wrapping_add(1);
        let mut participant_user_ids: Vec<u64> = Vec::new();
        let mut k: usize = 0;
        while k < snapshot.participants.len()
            invariant
                k <= snapshot.participants@.len(),
                participant_user_ids@ =~= snapshot.participants@.subrange(0, k as int).map_values(
                    |p: ParticipantState| p.user_id,
                ),
            decreases snapshot.participants@.len() - k,
        {
            participant_user_ids.push(snapshot.participants[k].user_id);
            k = k + 1;
        }
        assert(snapshot.participants@.subrange(0, k as int) == snapshot.participants@);
        let pending_user_ids = snapshot.pending_participant_ids.clone();
        assert(pending_user_ids@ =~= snapshot.pending_participant_ids@);
        self.pending_room_update = Some(
            PendingRoomUpdate {
                id: update_id,
                participants: snapshot.participants,
                pending_ids: snapshot.pending_participant_ids,
                followers: snapshot.followers,
            },
        );
        RosterRequest { update_id, participant_user_ids, pending_user_ids }
    }

    /// Finishes the merge `update_id` with the identities the runtime
    /// resolved: `remote_users[i]` for the snapshot's `i`-th participant and
    /// `pending_users` for its invitees; `None` where resolution failed, which
    /// keeps that part of the roster as it was. An answer for a merge that is
    /// no longer in flight is ignored. Afterwards an empty room that leaves
    /// when empty is left.
    #[verifier::rlimit(100)]
    pub fn complete_room_update(
        &mut self,
        update_id: u64,
        remote_users: Option<Vec<User>>,
        pending_users: Option<Vec<User>>,
        registry: &Vec<ProjectInfo>,
    ) -> (applied: bool)
        requires
            old(self).wf(),
        ensures
            final(self).wf(),
            applied == (old(self)@.pending_update matches Some(p) && p.id == update_id),
            !applied ==> final(self)@ == old(self)@,
            applied ==> merged_parts(old(self)@, final(self)@, users_view(remote_users), users_view(pending_users)),
            applied && leaves_after(old(self)@, final(self)@) ==> {
                &&& final(self)@.status == RoomStatus::Offline
                &&& final(self)@.media is None
                &&& final(self)@.shared_projects.len() == 0
                &&& final(self)@.joined_projects.len() == 0
                &&& final(self)@.events == events_mid(old(self)@, users_view(remote_users)).push(EventView::Left)
                &&& final(self)@.effects == effects_mid(old(self)@, users_view(remote_users), registry@)
                    + leave_effects(old(self)@.shared_projects, joined_mid(old(self)@, users_view(remote_users), registry@))
            },
            applied && !leaves_after(old(self)@, final(self)@) ==> {
                &&& final(self)@.status == old(self)@.status
                &&& final(self)@.media == old(self)@.media
                &&& final(self)@.shared_projects == old(self)@.shared_projects
                &&& final(self)@.joined_projects == joined_mid(old(self)@, users_view(remote_users), registry@)
                &&& final(self)@.events == events_mid(old(self)@, users_view(remote_users))
                &&& final(self)@.effects == effects_mid(old(self)@, users_view(remote_users), registry@)
            },
    {
        let current = match &self.pending_room_update {
            Some(p) => p.id == update_id,
            None => false,
        };
        if !current {
            return false;
        }
        let ghost o = self@;
        let p = self.pending_room_update.take().unwrap();
        let local = self.local_user_id;
        self.local_participant.projects = local_projects_of(&p.participants, local);
        let media = self.media.is_some();
        match remote_users {
            Some(users) => {
                let mut unshared: Vec<u64> = Vec::new();
                merge_roster(
                    &mut self.remote_participants,
                    &p.participants,
                    &users,
                    local,
                    media,
                    &mut self.events,
                    &mut self.effects,
                    &mut unshared,
                );
                let joined = prune_joined(&self.joined_projects, registry, &unshared, &mut self.effects);
                self.joined_projects = joined;
                proof {
                    let n = p.participants@.len() as int;
                    assert forall|k: int| 0 <= k < self.remote_participants@.len()
                        implies (#[trigger] self.remote_participants@[k]).user.id != local by {
                        crate::roster::lemma_roster_map_at(self.remote_participants@, k);
                        lemma_merge_keys(o.roster(), p.participants@, users@, local, n, self.remote_participants@[k].user.id);
                        lemma_accepted_not_local(p.participants@, users@, local, n);
                    }
                }
            },
            None => {},
        }
        let ghost base_view = match &pending_users {
            Some(us) => us@,
            None => self.pending_participants@,
        };
        let base = match pending_users {
            Some(us) => us,
            None => {
                let mut old_pending: Vec<User> = Vec::new();
                std::mem::swap(&mut old_pending, &mut self.pending_participants);
                old_pending
            },
        };
        self.pending_participants = filter_pending(base, &self.remote_participants, local);
        proof {
            lemma_pending_kept(
                base_view,
                roster_map(self.remote_participants@).dom(),
                local,
            );
        }
        self.participant_user_ids = participant_ids_of(&self.remote_participants, &self.pending_participants);
        self.followers = build_follower_table(&p.followers);
        let ghost mid = self@;
        proof {
            assert(merged_parts(o, mid, users_view(remote_users), users_view(pending_users)));
            assert(mid.events == events_mid(o, users_view(remote_users)));
            assert(mid.effects == effects_mid(o, users_view(remote_users), registry@));
            assert(mid.joined_projects == joined_mid(o, users_view(remote_users), registry@));
        }
        if self.should_leave() {
            self.events.push(Event::Left);
            proof {
                assert(self@.events =~= mid.events.push(EventView::Left));
            }
            let ghost before_leave = self@;
            self.leave_internal();
            proof {
                assert(self@ == before_leave.left());
                assert(mid.remote =~= self@.remote);
                assert(mid.pending =~= self@.pending);
                assert(mid.participant_user_ids =~= self@.participant_user_ids);
                assert(merged_parts(o, self@, users_view(remote_users), users_view(pending_users)));
            }
        }
        true
    }

    /// Leaves the room: announces `Left`, then clears all local state at
    /// once, whatever the server later answers. A room that is already
    /// offline refuses, changing nothing.
    pub fn leave(&mut self) -> (r: Result<(), RoomError>)
        requires
            old(self).wf(),
        ensures
            final(self).wf(),
            old(self)@.status == RoomStatus::Offline ==> r == Err::<(), RoomError>(RoomError::Offline)
                && final(self)@ == old(self)@,
            old(self)@.status != RoomStatus::Offline ==> r is Ok && final(self)@ == (RoomView {
                events: old(self)@.events.push(EventView::Left),
                ..old(self)@
            }).left(),
    {
        if self.status.is_offline() {
            return Err(RoomError::Offline);
        }
        self.events.push(Event::Left);
        let ghost before = self@;
        assert(before == (RoomView { events: old(self)@.events.push(EventView::Left), ..old(self)@ })) by {
            assert(before.events =~= old(self)@.events.push(EventView::Left));
        }
        self.leave_internal();
        Ok(())
    }

    /// The room's owner released it: an online room is left without
    /// announcing `Left`.
    pub fn release(&mut self)
        requires
            old(self).wf(),
        ensures
            final(self).wf(),
            old(self)@.status == RoomStatus::Online ==> final(self)@ == old(self)@.left(),
            old(self)@.status != RoomStatus::Online ==> final(self)@ == old(self)@,
    {
        if self.status.is_online() {
            self.leave_internal();
        }
    }

    /// The application is quitting: like [`Room::release`]; returns whether a
    /// leave request is to be awaited.
    pub fn app_will_quit(&mut self) -> (r: bool)
        requires
            old(self).wf(),
        ensures
            final(self).wf(),
            r == (old(self)@.status == RoomStatus::Online),
            r ==> final(self)@ == old(self)@.left(),
            !r ==> final(self)@ == old(self)@,
    {
        let online = self.status.is_online();
        self.release();
        online
    }

    /// Places an outbound call. The call counts as pending until
    /// [`Room::call_finished`].
    pub fn call(&mut self, called_user_id: u64, initial_project_id: Option<u64>) -> (r: Result<CallRequest, RoomError>)
        requires
            old(self).wf(),
            old(self)@.pending_call_count < usize::MAX,
        ensures
            final(self).wf(),
            old(self)@.status == RoomStatus::Offline ==> r == Err::<CallRequest, RoomError>(RoomError::Offline)
                && final(self)@ == old(self)@,
            old(self)@.status != RoomStatus::Offline ==> {
                &&& r == Ok::<CallRequest, RoomError>(CallRequest { room_id: old(self)@.id, called_user_id, initial_project_id })
                &&& final(self)@ == (RoomView { pending_call_count: (old(self)@.pending_call_count + 1) as usize, ..old(self)@ })
            },
    {
        if self.status.is_offline() {
            return Err(RoomError::Offline);
        }
        self.pending_call_count = self.pending_call_count + 1;
        Ok(CallRequest { room_id: self.id, called_user_id, initial_project_id })
    }

    /// Places the first call of a room this client created; from then on the
    /// room leaves when it becomes empty.
    pub fn place_initial_call(&mut self, called_user_id: u64, initial_project_id: Option<u64>) -> (r: Result<CallRequest, RoomError>)
        requires
            old(self).wf(),
            old(self)@.pending_call_count < usize::MAX,
        ensures
            final(self).wf(),
            old(self)@.status == RoomStatus::Offline ==> r == Err::<CallRequest, RoomError>(RoomError::Offline)
                && final(self)@ == (RoomView { leave_when_empty: true, ..old(self)@ }),
            old(self)@.status != RoomStatus::Offline ==> {
                &&& r == Ok::<CallRequest, RoomError>(CallRequest { room_id: old(self)@.id, called_user_id, initial_project_id })
                &&& final(self)@ == (RoomView {
                    pending_call_count: (old(self)@.pending_call_count + 1) as usize,
                    leave_when_empty: true,
                    ..old(self)@
                })
            },
    {
        self.leave_when_empty = true;
        self.call(called_user_id, initial_project_id)
    }

    /// An outbound call completed, successfully or not. An empty room that
    /// leaves when empty is left.
    pub fn call_finished(&mut self) -> (left: bool)
        requires
            old(self).wf(),
        ensures
            final(self).wf(),
            ({
                let mid = RoomView {
                    pending_call_count: if old(self)@.pending_call_count > 0 {
                        (old(self)@.pending_call_count - 1) as usize
                    } else {
                        0
                    },
                    ..old(self)@
                };
                &&& left == (mid.should_leave() && mid.status != RoomStatus::Offline)
                &&& left ==> final(self)@ == (RoomView { events: mid.events.push(EventView::Left), ..mid }).left()
                &&& !left ==> final(self)@ == mid
            }),
    {
        if self.pending_call_count > 0 {
            self.pending_call_count = self.pending_call_count - 1;
        }
        if self.should_leave() {
            self.leave().is_ok()
        } else {
            false
        }
    }

    // -----------------------------------------------------------------------
    // Local media

    pub fn is_screen_sharing(&self) -> (r: bool)
        ensures
            r == (self@.media matches Some(m) && !(m.screen_track is Idle)),
    {
        match &self.media {
            Some(m) => !matches!(m.screen_track, LocalTrack::Idle),
            None => false,
        }
    }

    pub fn is_sharing_mic(&self) -> (r: bool)
        ensures
            r == (self@.media matches Some(m) && !(m.microphone_track is Idle)),
    {
        match &self.media {
            Some(m) => !matches!(m.microphone_track, LocalTrack::Idle),
            None => false,
        }
    }

    /// Whether the microphone is muted; with no microphone track yet, whether
    /// it will start muted (`mute_on_join`).
    pub fn is_muted(&self, mute_on_join: bool) -> (r: bool)
        ensures
            r == match self@.media {
                Some(m) => if m.microphone_track is Idle {
                    mute_on_join
                } else {
                    track_muted(m.microphone_track)
                },
                None => false,
            },
    {
        match &self.media {
            Some(m) => match m.microphone_track {
                LocalTrack::Idle => mute_on_join,
                LocalTrack::Pending { muted, .. } => muted,
                LocalTrack::Published { muted, .. } => muted,
            },
            None => false,
        }
    }

    pub fn is_speaking(&self) -> (r: bool)
        ensures
            r == (self@.media matches Some(m) && m.speaking),
    {
        match &self.media {
            Some(m) => m.speaking,
            None => false,
        }
    }

    pub fn is_deafened(&self) -> (r: Option<bool>)
        ensures
            r == match self@.media {
                Some(m) => Some(m.deafened),
                None => None::<bool>,
            },
    {
        match &self.media {
            Some(m) => Some(m.deafened),
            None => None,
        }
    }

    fn share_track(&mut self, kind: TrackKind) -> (r: Result<u64, RoomError>)
        requires
            old(self).wf(),
        ensures
            final(self).wf(),
            r == share_result(old(self)@, kind),
            r is Err ==> final(self)@ == old(self)@,
            r is Ok ==> final(self)@ == (RoomView {
                media: Some(MediaSession {
                    next_publish_id: old(self)@.media->0.next_publish_id.wrapping_add(1),
                    ..old(self)@.media->0.with_track(kind, LocalTrack::Pending { publish_id: r->Ok_0, muted: false })
                }),
                ..old(self)@
            }),
    {
        if self.status.is_offline() {
            return Err(RoomError::Offline);
        }
        match &mut self.media {
            Some(m) => {
                if !matches!(m.get_track(kind), LocalTrack::Idle) {
                    return Err(RoomError::AlreadyInProgress);
                }
                let id = m.begin_publish(kind);
                Ok(id)
            },
            None => Err(RoomError::MediaNotStarted),
        }
    }

    /// Starts publishing the microphone: the track becomes pending under a
    /// fresh publish id, which the runtime hands back with the engine's
    /// answer to [`Room::publish_finished`].
    pub fn share_microphone(&mut self) -> (r: Result<u64, RoomError>)
        requires
            old(self).wf(),
        ensures
            final(self).wf(),
            r == share_result(old(self)@, TrackKind::Microphone),
            r is Err ==> final(self)@ == old(self)@,
            r is Ok ==> final(self)@ == (RoomView {
                media: Some(MediaSession {
                    next_publish_id: old(self)@.media->0.next_publish_id.wrapping_add(1),
                    microphone_track: LocalTrack::Pending { publish_id: r->Ok_0, muted: false },
                    ..old(self)@.media->0
                }),
                ..old(self)@
            }),
    {
        self.share_track(TrackKind::Microphone)
    }

    /// Starts publishing the screen, as [`Room::share_microphone`] does the
    /// microphone.
    pub fn share_screen(&mut self) -> (r: Result<u64, RoomError>)
        requires
            old(self).wf(),
        ensures
            final(self).wf(),
            r == share_result(old(self)@, TrackKind::Screen),
            r is Err ==> final(self)@ == old(self)@,
            r is Ok ==> final(self)@ == (RoomView {
                media: Some(MediaSession {
                    next_publish_id: old(self)@.media->0.next_publish_id.wrapping_add(1),
                    screen_track: LocalTrack::Pending { publish_id: r->Ok_0, muted: false },
                    ..old(self)@.media->0
                }),
                ..old(self)@
            }),
    {
        self.share_track(TrackKind::Screen)
    }

    /// Applies the engine's answer to the publish attempt `publish_id`:
    /// `Ok(publication)` or `Err(())`. A superseded attempt changes nothing
    /// but withdraws a publication that arrives for it.
    pub fn publish_finished(&mut self, kind: TrackKind, publish_id: u64, outcome: Result<u64, ()>) -> (r: Result<(), RoomError>)
        requires
            old(self).wf(),
        ensures
            final(self).wf(),
            old(self)@.media is None ==> r == Err::<(), RoomError>(RoomError::MediaNotStarted)
                && final(self)@ == old(self)@,
            old(self)@.media matches Some(m) ==> {
                &&& final(self)@ == (RoomView {
                    media: Some(m.with_track(kind, published_track(m.track(kind), publish_id, outcome))),
                    effects: old(self)@.effects + publish_effects(kind, m.track(kind), publish_id, outcome),
                    ..old(self)@
                })
                &&& (r is Err <==> (outcome is Err && !superseded(m.track(kind), publish_id)))
                &&& r is Err ==> r == Err::<(), RoomError>(RoomError::EngineFailure)
            },
    {
        match &mut self.media {
            Some(m) => m.finish_publish(kind, publish_id, outcome, &mut self.effects),
            None => Err(RoomError::MediaNotStarted),
        }
    }

    /// Stops sharing the screen: a published track is withdrawn, a pending
    /// one forgotten (its publish attempt is then superseded).
    pub fn unshare_screen(&mut self) -> (r: Result<(), RoomError>)
        requires
            old(self).wf(),
        ensures
            final(self).wf(),
            old(self)@.status == RoomStatus::Offline ==> r == Err::<(), RoomError>(RoomError::Offline)
                && final(self)@ == old(self)@,
            old(self)@.status != RoomStatus::Offline && old(self)@.media is None ==> r == Err::<(), RoomError>(
                RoomError::MediaNotStarted,
            ) && final(self)@ == old(self)@,
            old(self)@.media matches Some(m) ==> old(self)@.status != RoomStatus::Offline ==> {
                match m.screen_track {
                    LocalTrack::Idle => r == Err::<(), RoomError>(RoomError::NotShared) && final(self)@ == old(self)@,
                    LocalTrack::Pending { .. } => r is Ok && final(self)@ == (RoomView {
                        media: Some(MediaSession { screen_track: LocalTrack::Idle, ..m }),
                        ..old(self)@
                    }),
                    LocalTrack::Published { publication, .. } => r is Ok && final(self)@ == (RoomView {
                        media: Some(MediaSession { screen_track: LocalTrack::Idle, ..m }),
                        effects: old(self)@.effects + seq![
                            Effect::UnpublishTrack { publication },
                            Effect::PlaySound { sound: Sound::StopScreenshare },
                        ],
                        ..old(self)@
                    }),
                }
            },
    {
        if self.status.is_offline() {
            return Err(RoomError::Offline);
        }
        match &mut self.media {
            Some(m) => match m.screen_track {
                LocalTrack::Idle => Err(RoomError::NotShared),
                LocalTrack::Pending { .. } => {
                    m.screen_track = LocalTrack::Idle;
                    Ok(())
                },
                LocalTrack::Published { publication, .. } => {
                    m.screen_track = LocalTrack::Idle;
                    self.effects.push(Effect::UnpublishTrack { publication });
                    self.effects.push(Effect::PlaySound { sound: Sound::StopScreenshare });
                    assert(self.effects@ =~= old(self)@.effects + seq![
                        Effect::UnpublishTrack { publication },
                        Effect::PlaySound { sound: Sound::StopScreenshare },
                    ]);
                    Ok(())
                },
            },
            None => Err(RoomError::MediaNotStarted),
        }
    }

    /// Deafens or undeafens. Deafening mutes the microphone; undeafening
    /// unmutes it unless the user had muted it. Playback of every remote
    /// participant's audio follows. Fails, changing nothing, without a media
    /// session, or when the microphone would have to change but has no track.
    pub fn toggle_deafen(&mut self) -> (r: Result<(), RoomError>)
        requires
            old(self).wf(),
        ensures
            final(self).wf(),
            r == deafen_result(old(self)@),
            r is Err ==> final(self)@ == old(self)@,
            r is Ok ==> final(self)@ == deafened_view(old(self)@),
    {
        let ghost o = self@;
        match &mut self.media {
            Some(m) => {
                let deafen = !m.deafened;
                if deafen || !m.muted_by_user {
                    if matches!(m.microphone_track, LocalTrack::Idle) {
                        return Err(RoomError::NotShared);
                    }
                    let _ = m.set_mute(deafen, &mut self.effects);
                }
                m.deafened = deafen;
            },
            None => {
                return Err(RoomError::MediaNotStarted);
            },
        }
        let enabled = match &self.media {
            Some(m) => !m.deafened,
            None => true,
        };
        let mut out: Vec<Effect> = Vec::new();
        let mut k: usize = 0;
        while k < self.remote_participants.len()
            invariant
                k <= self.remote_participants@.len(),
                out@ == audio_enable_effects(self.remote_participants@.subrange(0, k as int), enabled),
            decreases self.remote_participants@.len() - k,
        {
            out.push(Effect::SetRemoteAudioEnabled { user_id: self.remote_participants[k].user.id, enabled });
            k = k + 1;
            assert(out@ =~= audio_enable_effects(self.remote_participants@.subrange(0, k as int), enabled));
        }
        assert(self.remote_participants@.subrange(0, k as int) == self.remote_participants@);
        self.effects.append(&mut out);
        proof {
            let d = deafened_view(o);
            assert(self@.effects =~= d.effects);
            assert(self@ == d);
        }
        Ok(())
    }

    /// Mutes or unmutes the microphone, recording the choice as the user's.
    /// Without a microphone track this starts publishing one instead and
    /// returns its publish id. Unmuting while deafened also undeafens.
    pub fn toggle_mute(&mut self, mute_on_join: bool) -> (r: Result<Option<u64>, RoomError>)
        requires
            old(self).wf(),
        ensures
            final(self).wf(),
            old(self)@.media is None ==> r == Err::<Option<u64>, RoomError>(RoomError::MediaNotStarted)
                && final(self)@ == old(self)@,
            old(self)@.media matches Some(m) ==> m.microphone_track is Idle ==> {
                &&& r == match share_result(old(self)@, TrackKind::Microphone) {
                    Ok(id) => Ok::<Option<u64>, RoomError>(Some(id)),
                    Err(e) => Err(e),
                }
                &&& r is Err ==> final(self)@ == old(self)@
                &&& r is Ok ==> final(self)@ == (RoomView {
                    media: Some(MediaSession {
                        next_publish_id: m.next_publish_id.wrapping_add(1),
                        microphone_track: LocalTrack::Pending { publish_id: m.next_publish_id, muted: false },
                        ..m
                    }),
                    ..old(self)@
                })
            },
            old(self)@.media matches Some(m) ==> !(m.microphone_track is Idle) ==> {
                let should_mute = !track_muted(m.microphone_track);
                let muted = RoomView {
                    media: Some(MediaSession {
                        microphone_track: with_muted(m.microphone_track, should_mute),
                        muted_by_user: should_mute,
                        ..m
                    }),
                    effects: old(self)@.effects + mute_effects(m.microphone_track, should_mute),
                    ..old(self)@
                };
                &&& r == Ok::<Option<u64>, RoomError>(None)
                &&& (track_muted(m.microphone_track) && m.deafened) ==> final(self)@ == deafened_view(muted)
                &&& !(track_muted(m.microphone_track) && m.deafened) ==> final(self)@ == muted
            },
    {
        let should_mute = !self.is_muted(mute_on_join);
        let idle = match &self.media {
            Some(m) => matches!(m.microphone_track, LocalTrack::Idle),
            None => {
                return Err(RoomError::MediaNotStarted);
            },
        };
        if idle {
            return match self.share_microphone() {
                Ok(id) => Ok(Some(id)),
                Err(e) => Err(e),
            };
        }
        let mut was_muted = false;
        let mut deafened = false;
        match &mut self.media {
            Some(m) => {
                match m.set_mute(should_mute, &mut self.effects) {
                    Ok(old_muted) => {
                        was_muted = old_muted;
                    },
                    Err(_) => {},
                }
                m.muted_by_user = should_mute;
                deafened = m.deafened;
            },
            None => {},
        }
        if was_muted && deafened {
            let _ = self.toggle_deafen();
        }
        Ok(None)
    }

    // -----------------------------------------------------------------------
    // Projects

    /// Starts sharing a project whose remote id, if it has one, is `remote_id`.
    pub fn share_project(&self, remote_id: Option<u64>) -> (r: ShareProjectStart)
        ensures
            r == match remote_id {
                Some(id) => ShareProjectStart::AlreadyShared { project_id: id },
                None => ShareProjectStart::Request { room_id: self@.id },
            },
    {
        match remote_id {
            Some(id) => ShareProjectStart::AlreadyShared { project_id: id },
            None => ShareProjectStart::Request { room_id: self.id },
        }
    }

    /// Sets the local user's active project, whose remote id is `remote_id`
    /// when it is shared, and returns the location to send.
    pub fn set_location(&mut self, project: Option<ProjectHandle>, remote_id: Option<u64>) -> (r: Result<LocationUpdate, RoomError>)
        requires
            old(self).wf(),
        ensures
            final(self).wf(),
            old(self)@.status == RoomStatus::Offline ==> r == Err::<LocationUpdate, RoomError>(RoomError::Offline)
                && final(self)@ == old(self)@,
            old(self)@.status != RoomStatus::Offline ==> {
                &&& r == Ok::<LocationUpdate, RoomError>(LocationUpdate { room_id: old(self)@.id, location: location_for(project, remote_id) })
                &&& final(self)@ == (RoomView { active_project: project, ..old(self)@ })
            },
    {
        if self.status.is_offline() {
            return Err(RoomError::Offline);
        }
        self.local_participant.active_project = project;
        let location = match project {
            Some(_) => match remote_id {
                Some(id) => ParticipantLocation::SharedProject { project_id: id },
                None => ParticipantLocation::UnsharedProject,
            },
            None => ParticipantLocation::External,
        };
        Ok(LocationUpdate { room_id: self.id, location })
    }

    /// The server shared `project` under `project_id`. When it is the active
    /// project, the local user's location becomes that shared project and the
    /// update to send is returned.
    pub fn project_shared(&mut self, project: ProjectHandle, project_id: u64) -> (r: Result<Option<LocationUpdate>, RoomError>)
        requires
            old(self).wf(),
        ensures
            final(self).wf(),
            old(self)@.status == RoomStatus::Offline ==> r == Err::<Option<LocationUpdate>, RoomError>(RoomError::Offline)
                && final(self)@ == old(self)@,
            old(self)@.status != RoomStatus::Offline ==> {
                &&& final(self)@ == (RoomView {
                    shared_projects: with_handle(old(self)@.shared_projects, project),
                    ..old(self)@
                })
                &&& old(self)@.active_project == Some(project) ==> r == Ok::<Option<LocationUpdate>, RoomError>(
                    Some(LocationUpdate {
                        room_id: old(self)@.id,
                        location: ParticipantLocation::SharedProject { project_id },
                    }),
                )
                &&& old(self)@.active_project != Some(project) ==> r == Ok::<Option<LocationUpdate>, RoomError>(None)
            },
    {
        if self.status.is_offline() {
            return Err(RoomError::Offline);
        }
        if !contains_handle(&self.shared_projects, project) {
            self.shared_projects.push(project);
        }
        let active = match self.local_participant.active_project {
            Some(h) => h == project,
            None => false,
        };
        if active {
            match self.set_location(Some(project), Some(project_id)) {
                Ok(update) => Ok(Some(update)),
                Err(e) => Err(e),
            }
        } else {
            Ok(None)
        }
    }

    /// The runtime joined the remote project `project`. Joined projects that
    /// closed or became read-only are forgotten.
    pub fn project_joined(&mut self, project: ProjectHandle, registry: &Vec<ProjectInfo>) -> (r: Result<(), RoomError>)
        requires
            old(self).wf(),
        ensures
            final(self).wf(),
            old(self)@.status == RoomStatus::Offline ==> r == Err::<(), RoomError>(RoomError::Offline)
                && final(self)@ == old(self)@,
            old(self)@.status != RoomStatus::Offline ==> r is Ok && final(self)@ == (RoomView {
                joined_projects: with_handle(joined_writable(old(self)@.joined_projects, registry@), project),
                ..old(self)@
            }),
    {
        if self.status.is_offline() {
            return Err(RoomError::Offline);
        }
        let mut kept: Vec<ProjectHandle> = Vec::new();
        let mut k: usize = 0;
        while k < self.joined_projects.len()
            invariant
                k <= self.joined_projects@.len(),
                kept@ == joined_writable(self.joined_projects@.subrange(0, k as int), registry@),
            decreases self.joined_projects@.len() - k,
        {
            let h = self.joined_projects[k];
            let ghost sub = self.joined_projects@.subrange(0, k + 1);
            assert(sub.drop_last() =~= self.joined_projects@.subrange(0, k as int));
            match lookup_project(registry, h) {
                Some(info) => {
                    if !info.read_only {
                        kept.push(h);
                    }
                },
                None => {},
            }
            k = k + 1;
        }
        assert(self.joined_projects@.subrange(0, k as int) == self.joined_projects@);
        if !contains_handle(&kept, project) {
            kept.push(project);
        }
        self.joined_projects = kept;
        Ok(())
    }

    /// Marks the room as rejoining after the connection dropped.
    pub fn begin_rejoining(&mut self)
        requires
            old(self).wf(),
        ensures
            final(self).wf(),
            old(self)@.status == RoomStatus::Offline ==> final(self)@ == old(self)@,
            old(self)@.status != RoomStatus::Offline ==> final(self)@ == (RoomView {
                status: RoomStatus::Rejoining,
                ..old(self)@
            }),
    {
        if !self.status.is_offline() {
            self.status = RoomStatus::Rejoining;
        }
    }

    /// Prepares a rejoin request. Shared projects that closed or lost their
    /// remote id are forgotten, and so are joined projects that closed.
    pub fn prepare_rejoin(&mut self, registry: &Vec<ProjectInfo>) -> (r: RejoinRequest)
        requires
            old(self).wf(),
        ensures
            final(self).wf(),
            r.room_id == old(self)@.id,
            r.reshared@ == reshareable(old(self)@.shared_projects, registry@),
            r.rejoined@ == rejoinable(old(self)@.joined_projects, registry@),
            final(self)@ == (RoomView {
                shared_projects: refs_handles(r.reshared@),
                joined_projects: joined_open(old(self)@.joined_projects, registry@),
                ..old(self)@
            }),
    {
        let mut reshared: Vec<ProjectRef> = Vec::new();
        let mut shared: Vec<ProjectHandle> = Vec::new();
        let mut k: usize = 0;
        while k < self.shared_projects.len()
            invariant
                k <= self.shared_projects@.len(),
                reshared@ == reshareable(self.shared_projects@.subrange(0, k as int), registry@),
                shared@ == refs_handles(reshared@),
            decreases self.shared_projects@.len() - k,
        {
            let h = self.shared_projects[k];
            let ghost sub = self.shared_projects@.subrange(0, k + 1);
            assert(sub.drop_last() =~= self.shared_projects@.subrange(0, k as int));
            match lookup_project(registry, h) {
                Some(info) => match info.remote_id {
                    Some(id) => {
                        reshared.push(ProjectRef { project: h, project_id: id });
                        shared.push(h);
                        assert(shared@ =~= refs_handles(reshared@));
                    },
                    None => {},
                },
                None => {},
            }
            k = k + 1;
        }
        assert(self.shared_projects@.subrange(0, k as int) == self.shared_projects@);
        let mut rejoined: Vec<ProjectRef> = Vec::new();
        let mut joined: Vec<ProjectHandle> = Vec::new();
        k = 0;
        while k < self.joined_projects.len()
            invariant
                k <= self.joined_projects@.len(),
                rejoined@ == rejoinable(self.joined_projects@.subrange(0, k as int), registry@),
                joined@ == joined_open(self.joined_projects@.subrange(0, k as int), registry@),
            decreases self.joined_projects@.len() - k,
        {
            let h = self.joined_projects[k];
            let ghost sub = self.joined_projects@.subrange(0, k + 1);
            assert(sub.drop_last() =~= self.joined_projects@.subrange(0, k as int));
            match lookup_project(registry, h) {
                Some(info) => {
                    joined.push(h);
                    match info.remote_id {
                        Some(id) => {
                            rejoined.push(ProjectRef { project: h, project_id: id });
                        },
                        None => {},
                    }
                },
                None => {},
            }
            k = k + 1;
        }
        assert(self.joined_projects@.subrange(0, k as int) == self.joined_projects@);
        proof {
            if self.status == RoomStatus::Offline {
                assert(reshared@ =~= Seq::<ProjectRef>::empty());
                assert(joined@ =~= Seq::<ProjectHandle>::empty());
            }
        }
        self.shared_projects = shared;
        self.joined_projects = joined;
        RejoinRequest { room_id: self.id, reshared, rejoined }
    }

    /// The server answered the rejoin request `request`. The room is online
    /// again and merges the fresh snapshot, and every project the server took
    /// back resumes syncing: those shared again first, then those rejoined as
    /// a guest, which resume from the response's message id. A response
    /// without a room fails and changes nothing.
    pub fn complete_rejoin(&mut self, request: &RejoinRequest, response: RejoinResponse) -> (r: Result<RosterRequest, RoomError>)
        requires
            old(self).wf(),
        ensures
            final(self).wf(),
            old(self)@.status == RoomStatus::Offline ==> r == Err::<RosterRequest, RoomError>(RoomError::Offline)
                && final(self)@ == old(self)@,
            old(self)@.status != RoomStatus::Offline && response.room is None ==> r == Err::<RosterRequest, RoomError>(
                RoomError::InvalidRoom,
            ) && final(self)@ == old(self)@,
            old(self)@.status != RoomStatus::Offline && response.room is Some ==> {
                let snapshot = response.room->0;
                &&& r is Ok
                &&& r->Ok_0.update_id == old(self)@.next_update_id
                &&& r->Ok_0.participant_user_ids@ == snapshot.participants@.map_values(|p: ParticipantState| p.user_id)
                &&& r->Ok_0.pending_user_ids@ == snapshot.pending_participant_ids@
                &&& final(self)@ == (RoomView {
                    status: RoomStatus::Online,
                    pending_update: Some(PendingView {
                        id: old(self)@.next_update_id,
                        participants: snapshot.participants@,
                        pending_ids: snapshot.pending_participant_ids@,
                        followers: snapshot.followers@,
                    }),
                    next_update_id: old(self)@.next_update_id.wrapping_add(1),
                    effects: old(self)@.effects + reshared_effects(request_refs(*request), response.reshared_ids@)
                        + rejoined_effects(request_refs(*request), response.rejoined_ids@, response.message_id),
                    ..old(self)@
                })
            },
    {
        if self.status.is_offline() {
            return Err(RoomError::Offline);
        }
        let snapshot = match response.room {
            Some(snapshot) => snapshot,
            None => {
                return Err(RoomError::InvalidRoom);
            },
        };
        self.status = RoomStatus::Online;
        let roster = self.start_room_update(snapshot);
        let refs = request_ref_list(request);
        let mut resumed = resume_effects(&refs, &response.reshared_ids, &response.rejoined_ids, response.message_id);
        let ghost before = self.effects@;
        self.effects.append(&mut resumed);
        proof {
            assert(self.effects@ =~= before + reshared_effects(request_refs(*request), response.reshared_ids@)
                + rejoined_effects(request_refs(*request), response.rejoined_ids@, response.message_id));
        }
        Ok(roster)
    }

    /// The media engine's connection changed; losing it leaves the room.
    /// Returns whether the room was left.
    pub fn media_status_changed(&mut self, connected: bool) -> (left: bool)
        requires
            old(self).wf(),
        ensures
            final(self).wf(),
            old(self)@.media is None ==> !left && final(self)@ == old(self)@,
            old(self)@.media matches Some(m) ==> {
                let mid = RoomView { media: Some(MediaSession { connected, ..m }), ..old(self)@ };
                &&& connected ==> !left && final(self)@ == mid
                &&& !connected ==> left && final(self)@ == (RoomView {
                    events: mid.events.push(EventView::Left),
                    ..mid
                }).left()
            },
    {
        match &mut self.media {
            Some(m) => {
                m.connected = connected;
            },
            None => {
                return false;
            },
        }
        if connected {
            false
        } else {
            self.leave().is_ok()
        }
    }

    /// Builds the room that a join response describes: online, leaving when
    /// empty unless it belongs to a channel, and merging the response's
    /// snapshot.
    pub fn from_join_response(
        id: u64,
        channel_id: Option<u64>,
        local_user_id: u64,
        with_media: bool,
        snapshot: RoomSnapshot,
    ) -> (r: (Room, RosterRequest))
        ensures
            r.0.wf(),
            r.0@ == (RoomView {
                leave_when_empty: channel_id is None,
                pending_update: Some(PendingView {
                    id: 0,
                    participants: snapshot.participants@,
                    pending_ids: snapshot.pending_participant_ids@,
                    followers: snapshot.followers@,
                }),
                next_update_id: 1,
                ..fresh_view(id, channel_id, local_user_id, with_media)
            }),
            r.1.update_id == 0,
            r.1.participant_user_ids@ == snapshot.participants@.map_values(|p: ParticipantState| p.user_id),
            r.1.pending_user_ids@ == snapshot.pending_participant_ids@,
    {
        let mut room = Room::new(id, channel_id, local_user_id, with_media);
        room.leave_when_empty = channel_id.is_none();
        let request = room.start_room_update(snapshot);
        (room, request)
    }

    // -----------------------------------------------------------------------
    // Queries

    pub fn id(&self) -> (r: u64)
        ensures
            r == self@.id,
    {
        self.id
    }

    pub fn channel_id(&self) -> (r: Option<u64>)
        ensures
            r == self@.channel_id,
    {
        self.channel_id
    }

    pub fn status(&self) -> (r: RoomStatus)
        ensures
            r == self@.status,
    {
        self.status
    }

    /// Whether the media engine is connected.
    pub fn is_connected(&self) -> (r: bool)
        ensures
            r == (self@.media matches Some(m) && m.connected),
    {
        match &self.media {
            Some(m) => m.connected,
            None => false,
        }
    }

    /// Whether a newly shared microphone starts muted: the user's setting, or
    /// always when the client impersonates another user.
    pub fn mute_on_join(setting: bool, impersonating: bool) -> (r: bool)
        ensures
            r == (setting || impersonating),
    {
        setting || impersonating
    }

    pub fn local_participant(&self) -> (r: &LocalParticipant)
        ensures
            summaries(r.projects@) == self@.local_projects,
            r.active_project == self@.active_project,
    {
        &self.local_participant
    }

    /// Remote participants, ordered by user id.
    pub fn remote_participants(&self) -> (r: &Vec<RemoteParticipant>)
        ensures
            r@ == self@.remote,
    {
        &self.remote_participants
    }

    pub fn remote_participant_for_peer_id(&self, peer_id: PeerId) -> (r: Option<&RemoteParticipant>)
        ensures
            match r {
                Some(p) => exists|i: int| 0 <= i < self@.remote.len() && self@.remote[i] == *p && p.peer_id == peer_id
                    && forall|j: int| 0 <= j < i ==> (#[trigger] self@.remote[j]).peer_id != peer_id,
                None => forall|i: int| 0 <= i < self@.remote.len() ==> (#[trigger] self@.remote[i]).peer_id != peer_id,
            },
    {
        let mut k: usize = 0;
        while k < self.remote_participants.len()
            invariant
                k <= self@.remote.len(),
                forall|j: int| 0 <= j < k ==> (#[trigger] self@.remote[j]).peer_id != peer_id,
            decreases self@.remote.len() - k,
        {
            if self.remote_participants[k].peer_id == peer_id {
                return Some(&self.remote_participants[k]);
            }
            k = k + 1;
        }
        None
    }

    pub fn pending_participants(&self) -> (r: &Vec<User>)
        ensures
            r@ == self@.pending,
    {
        &self.pending_participants
    }

    pub fn contains_participant(&self, user_id: u64) -> (r: bool)
        ensures
            r == self@.participant_user_ids.contains(user_id),
    {
        self.participant_user_ids.contains(&user_id)
    }

    /// Participants following `leader_id` in the project `project_id`.
    pub fn followers_for(&self, leader_id: PeerId, project_id: u64) -> (r: Vec<PeerId>)
        requires
            self.wf(),
        ensures
            r@ == table_followers(self@.followers, leader_id, Some(project_id)),
    {
        table_followers_of(&self.followers, leader_id, Some(project_id))
    }

    pub fn shared_projects(&self) -> (r: &Vec<ProjectHandle>)
        ensures
            r@ == self@.shared_projects,
    {
        &self.shared_projects
    }

    pub fn joined_projects(&self) -> (r: &Vec<ProjectHandle>)
        ensures
            r@ == self@.joined_projects,
    {
        &self.joined_projects
    }

    /// Hands the queued events to the caller, oldest first.
    pub fn take_events(&mut self) -> (r: Vec<Event>)
        requires
            old(self).wf(),
        ensures
            final(self).wf(),
            events_view(r@) == old(self)@.events,
            final(self)@ == (RoomView { events: Seq::empty(), ..old(self)@ }),
    {
        let mut r: Vec<Event> = Vec::new();
        std::mem::swap(&mut r, &mut self.events);
        assert(events_view(self.events@) =~= Seq::<EventView>::empty());
        r
    }

    /// Hands the queued effects to the caller, oldest first.
    pub fn take_effects(&mut self) -> (r: Vec<Effect>)
        requires
            old(self).wf(),
        ensures
            final(self).wf(),
            r@ == old(self)@.effects,
            final(self)@ == (RoomView { effects: Seq::empty(), ..old(self)@ }),
    {
        let mut r: Vec<Effect> = Vec::new();
        std::mem::swap(&mut r, &mut self.effects);
        r
    }

    // -----------------------------------------------------------------------
    // Remote tracks

    /// Position of the remote participant `uid`.
    fn find_participant(&self, uid: u64) -> (r: Option<usize>)
        requires
            self.wf(),
        ensures
            match r {
                Some(i) => i < self@.remote.len() && self@.remote[i as int].user.id == uid
                    && self@.roster().contains_key(uid) && self@.roster()[uid] == self@.remote[i as int]@,
                None => !self@.roster().contains_key(uid),
            },
    {
        let pos = roster_position(&self.remote_participants, uid);
        if pos < self.remote_participants.len() && self.remote_participants[pos].user.id == uid {
            proof {
                lemma_roster_map_at(self.remote_participants@, pos as int);
            }
            Some(pos)
        } else {
            None
        }
    }

    /// Replaces the remote participant at `i` by an entry for the same user.
    fn replace_participant(&mut self, i: usize, x: RemoteParticipant)
        requires
            old(self).wf(),
            i < old(self)@.remote.len(),
            x.user.id == old(self)@.remote[i as int].user.id,
        ensures
            final(self).wf(),
            final(self)@ == (RoomView { remote: old(self)@.remote.update(i as int, x), ..old(self)@ }),
            final(self)@.roster() == old(self)@.roster().insert(x.user.id, x@),
    {
        let ghost s = self.remote_participants@;
        proof {
            lemma_roster_update(s, i as int, x);
            lemma_roster_map_at(s, i as int);
        }
        self.remote_participants.set(i, x);
        proof {
            let t = self.remote_participants@;
            assert(roster_ids(t) =~= roster_ids(s));
            assert(roster_map(t).dom() =~= roster_map(s).dom());
            assert forall|k: int| 0 <= k < self.pending_participants@.len() implies {
                let u = #[trigger] self.pending_participants@[k];
                u.id != self.local_user_id && !roster_map(t).contains_key(u.id)
            } by {
                assert(!roster_map(s).contains_key(self.pending_participants@[k].id));
            }
            assert forall|k: int| 0 <= k < t.len() implies (#[trigger] t[k]).user.id != self.local_user_id by {
                assert(s[k].user.id != self.local_user_id);
            }
        }
    }

    /// Applies a change of the remote video subscriptions to the participant
    /// that published the track.
    pub fn remote_video_track_updated(&mut self, update: VideoTrackUpdate) -> (r: Result<(), RoomError>)
        requires
            old(self).wf(),
        ensures
            final(self).wf(),
            match update {
                VideoTrackUpdate::Subscribed { publisher_id, track_id } => track_update_outcome(
                    old(self)@, final(self)@, r, publisher_id@, track_id@, true, true, None),
                VideoTrackUpdate::Unsubscribed { publisher_id, track_id } => track_update_outcome(
                    old(self)@, final(self)@, r, publisher_id@, track_id@, true, false, None),
            },
    {
        match update {
            VideoTrackUpdate::Subscribed { publisher_id, track_id } => self.track_subscription_changed(
                &publisher_id, track_id, true, true, None),
            VideoTrackUpdate::Unsubscribed { publisher_id, track_id } => self.track_subscription_changed(
                &publisher_id, track_id, true, false, None),
        }
    }

    fn track_subscription_changed(
        &mut self,
        publisher_id: &String,
        track_id: String,
        video: bool,
        subscribed: bool,
        muted: Option<bool>,
    ) -> (r: Result<(), RoomError>)
        requires
            old(self).wf(),
        ensures
            final(self).wf(),
            track_update_outcome(old(self)@, final(self)@, r, publisher_id@, track_id@, video, subscribed, muted),
    {
        let uid = match parse_user_id(publisher_id.as_str()) {
            Some(uid) => uid,
            None => {
                return Err(RoomError::InvalidPublisher);
            },
        };
        let i = match self.find_participant(uid) {
            Some(i) => i,
            None => {
                return Err(RoomError::NotFound);
            },
        };
        let mut entry = self.remote_participants[i].duplicate();
        let ghost p = entry@;
        let ghost tid = track_id@;
        if video {
            if subscribed {
                add_track(&mut entry.video_tracks, track_id);
            } else {
                entry.video_tracks = remove_track(&entry.video_tracks, &track_id);
            }
        } else {
            if subscribed {
                add_track(&mut entry.audio_tracks, track_id);
            } else {
                entry.audio_tracks = remove_track(&entry.audio_tracks, &track_id);
            }
        }
        match muted {
            Some(m) => {
                entry.muted = m;
            },
            None => {},
        }
        let peer_id = entry.peer_id;
        proof {
            let changed = track_changed(p, video, subscribed, tid);
            let want = match muted {
                Some(m) => ParticipantView { muted: m, ..changed },
                None => changed,
            };
            assert(entry@ == want);
        }
        entry.user.id = uid;
        self.replace_participant(i, entry);
        if video {
            self.events.push(Event::RemoteVideoTracksChanged { participant_id: peer_id });
        } else {
            self.events.push(Event::RemoteAudioTracksChanged { participant_id: peer_id });
        }
        proof {
            assert(self@.events =~= old(self)@.events.push(self@.events.last()));
        }
        Ok(())
    }

    /// Applies a change of the remote audio subscriptions: speaking flags,
    /// a remote mute change, or a subscription change of one track.
    pub fn remote_audio_track_updated(&mut self, update: AudioTrackUpdate) -> (r: Result<(), RoomError>)
        requires
            old(self).wf(),
        ensures
            final(self).wf(),
            match update {
                AudioTrackUpdate::ActiveSpeakersChanged { speakers } => {
                    let ids = speaker_ids(track_ids(speakers@));
                    &&& r is Ok
                    &&& final(self)@.roster() == old(self)@.roster().map_entries(
                        |uid: u64, p: ParticipantView| ParticipantView { speaking: ids.contains(uid), ..p },
                    )
                    &&& final(self)@ == (RoomView {
                        remote: final(self)@.remote,
                        media: match old(self)@.media {
                            Some(m) => Some(MediaSession { speaking: ids.contains(old(self)@.local_user_id), ..m }),
                            None => None,
                        },
                        ..old(self)@
                    })
                },
                AudioTrackUpdate::MuteChanged { track_id, muted } => {
                    &&& r is Ok
                    &&& match audio_holder(old(self)@.remote, track_id@) {
                        Some(i) => {
                            let p = old(self)@.remote[i]@;
                            &&& final(self)@.roster() == old(self)@.roster().insert(
                                p.user.id,
                                ParticipantView { muted, ..p },
                            )
                            &&& final(self)@ == (RoomView { remote: final(self)@.remote, ..old(self)@ })
                        },
                        None => final(self)@ == old(self)@,
                    }
                },
                AudioTrackUpdate::Subscribed { publisher_id, track_id, muted } => track_update_outcome(
                    old(self)@, final(self)@, r, publisher_id@, track_id@, false, true, Some(muted)),
                AudioTrackUpdate::Unsubscribed { publisher_id, track_id } => track_update_outcome(
                    old(self)@, final(self)@, r, publisher_id@, track_id@, false, false, None),
            },
    {
        match update {
            AudioTrackUpdate::ActiveSpeakersChanged { speakers } => {
                self.active_speakers_changed(&speakers);
                Ok(())
            },
            AudioTrackUpdate::MuteChanged { track_id, muted } => {
                self.remote_mute_changed(&track_id, muted);
                Ok(())
            },
            AudioTrackUpdate::Subscribed { publisher_id, track_id, muted } => self.track_subscription_changed(
                &publisher_id, track_id, false, true, Some(muted)),
            AudioTrackUpdate::Unsubscribed { publisher_id, track_id } => self.track_subscription_changed(
                &publisher_id, track_id, false, false, None),
        }
    }

    fn active_speakers_changed(&mut self, speakers: &Vec<String>)
        requires
            old(self).wf(),
        ensures
            final(self).wf(),
            ({
                let ids = speaker_ids(track_ids(speakers@));
                &&& final(self)@.roster() == old(self)@.roster().map_entries(
                    |uid: u64, p: ParticipantView| ParticipantView { speaking: ids.contains(uid), ..p },
                )
                &&& final(self)@ == (RoomView {
                    remote: final(self)@.remote,
                    media: match old(self)@.media {
                        Some(m) => Some(MediaSession { speaking: ids.contains(old(self)@.local_user_id), ..m }),
                        None => None,
                    },
                    ..old(self)@
                })
            }),
    {
        let mut ids: Vec<u64> = Vec::new();
        let mut k: usize = 0;
        while k < speakers.len()
            invariant
                k <= speakers@.len(),
                ids@ == speaker_ids(track_ids(speakers@.subrange(0, k as int))),
            decreases speakers@.len() - k,
        {
            let ghost sub = track_ids(speakers@.subrange(0, k + 1));
            assert(sub.drop_last() =~= track_ids(speakers@.subrange(0, k as int)));
            match parse_user_id(speakers[k].as_str()) {
                Some(id) => {
                    ids.push(id);
                },
                None => {},
            }
            k = k + 1;
            assert(ids@ =~= speaker_ids(track_ids(speakers@.subrange(0, k as int))));
        }
        assert(speakers@.subrange(0, k as int) == speakers@);
        let ghost idv = ids@;
        let ghost o = self@;
        let ghost want = o.roster().map_entries(
            |uid: u64, p: ParticipantView| ParticipantView { speaking: idv.contains(uid), ..p },
        );
        let mut j: usize = 0;
        while j < self.remote_participants.len()
            invariant
                self.wf(),
                ids@ == idv,
                j <= self@.remote.len(),
                self@.remote.len() == o.remote.len(),
                self@ == (RoomView { remote: self@.remote, ..o }),
                forall|a: int| 0 <= a < j ==> (#[trigger] self@.remote[a])@ == (ParticipantView {
                    speaking: idv.contains(o.remote[a].user.id),
                    ..o.remote[a]@
                }) && self@.remote[a].user.id == o.remote[a].user.id,
                forall|a: int| j <= a < self@.remote.len() ==> #[trigger] self@.remote[a] == o.remote[a],
            decreases self@.remote.len() - j,
        {
            let ghost before = self@.remote;
            let mut entry = self.remote_participants[j].duplicate();
            entry.user.id = self.remote_participants[j].user.id;
            entry.speaking = crate::roster::contains_id(&ids, entry.user.id);
            assert(before[j as int] == o.remote[j as int]);
            assert(entry@ == (ParticipantView { speaking: idv.contains(o.remote[j as int].user.id), ..o.remote[j as int]@ }));
            self.replace_participant(j, entry);
            assert(self@.remote == before.update(j as int, entry));
            j = j + 1;
        }
        proof {
            let t = self@.remote;
            assert forall|a: int| 0 <= a < t.len() implies want.contains_key(#[trigger] t[a].user.id) && want[t[a].user.id] == t[a]@ by {
                lemma_roster_map_at(o.remote, a);
            }
            assert forall|u: u64| #[trigger] want.contains_key(u) implies crate::roster::roster_has(t, u) by {
                let a = choose|a: int| 0 <= a < o.remote.len() && #[trigger] o.remote[a].user.id == u;
                assert(t[a].user.id == u);
            }
            crate::roster::lemma_roster_map_char(t, want);
        }
        let local = self.local_user_id;
        match &mut self.media {
            Some(m) => {
                m.speaking = crate::roster::contains_id(&ids, local);
            },
            None => {},
        }
    }

    fn remote_mute_changed(&mut self, track_id: &String, muted: bool)
        requires
            old(self).wf(),
        ensures
            final(self).wf(),
            match audio_holder(old(self)@.remote, track_id@) {
                Some(i) => {
                    let p = old(self)@.remote[i]@;
                    &&& final(self)@.roster() == old(self)@.roster().insert(p.user.id, ParticipantView { muted, ..p })
                    &&& final(self)@ == (RoomView { remote: final(self)@.remote, ..old(self)@ })
                },
                None => final(self)@ == old(self)@,
            },
    {
        let mut k: usize = 0;
        while k < self.remote_participants.len()
            invariant
                self.wf(),
                self@ == old(self)@,
                k <= self@.remote.len(),
                audio_holder(self@.remote.subrange(0, k as int), track_id@) is None,
            decreases self@.remote.len() - k,
        {
            let ghost sub = self@.remote.subrange(0, k + 1);
            assert(sub.drop_last() =~= self@.remote.subrange(0, k as int));
            if crate::roster::contains_track(&self.remote_participants[k].audio_tracks, track_id) {
                proof {
                    lemma_holder_prefix(self@.remote, track_id@, k as int, self@.remote.len() as int);
                    assert(self@.remote.subrange(0, self@.remote.len() as int) == self@.remote);
                }
                let mut entry = self.remote_participants[k].duplicate();
                entry.user.id = self.remote_participants[k].user.id;
                entry.muted = muted;
                self.replace_participant(k, entry);
                return;
            }
            k = k + 1;
        }
        assert(self@.remote.subrange(0, k as int) == self@.remote);
    }

    /// Whether the auto-leave condition holds.
    fn should_leave(&self) -> (r: bool)
        ensures
            r == self@.should_leave(),
    {
        self.leave_when_empty && self.pending_room_update.is_none() && self.pending_participants.len() == 0
            && self.remote_participants.len() == 0 && self.pending_call_count == 0
    }

    /// Clears all local state of the room and asks the runtime to unshare,
    /// close and notify.
    fn leave_internal(&mut self)
        requires
            old(self).wf(),
        ensures
            final(self).wf(),
            final(self)@ == old(self)@.left(),
    {
        let mut out: Vec<Effect> = Vec::new();
        out.push(Effect::PlaySound { sound: Sound::Leave });
        let mut k: usize = 0;
        while k < self.shared_projects.len()
            invariant
                k <= self.shared_projects@.len(),
                out@ == seq![Effect::PlaySound { sound: Sound::Leave }]
                    + self.shared_projects@.subrange(0, k as int).map_values(
                    |h: ProjectHandle| Effect::UnshareProject { project: h },
                ),
            decreases self.shared_projects@.len() - k,
        {
            let h = self.shared_projects[k];
            out.push(Effect::UnshareProject { project: h });
            k = k + 1;
            assert(out@ =~= seq![Effect::PlaySound { sound: Sound::Leave }]
                + self.shared_projects@.subrange(0, k as int).map_values(
                |h: ProjectHandle| Effect::UnshareProject { project: h },
            ));
        }
        let ghost after_shared = out@;
        k = 0;
        while k < self.joined_projects.len()
            invariant
                k <= self.joined_projects@.len(),
                out@ == after_shared + self.joined_projects@.subrange(0, k as int).map_values(
                    |h: ProjectHandle| Effect::CloseJoinedProject { project: h },
                ),
            decreases self.joined_projects@.len() - k,
        {
            let h = self.joined_projects[k];
            out.push(Effect::CloseJoinedProject { project: h });
            k = k + 1;
            assert(out@ =~= after_shared + self.joined_projects@.subrange(0, k as int).map_values(
                |h: ProjectHandle| Effect::CloseJoinedProject { project: h },
            ));
        }
        out.push(Effect::SendLeaveRoom);
        self.effects.append(&mut out);
        self.shared_projects = Vec::new();
        self.joined_projects = Vec::new();
        self.status = RoomStatus::Offline;
        self.remote_participants = Vec::new();
        self.pending_participants = Vec::new();
        self.participant_user_ids = HashSet::new();
        self.media = None;
        self.pending_room_update = None;
        proof {
            assert(old(self).shared_projects@.subrange(0, old(self).shared_projects@.len() as int)
                == old(self).shared_projects@);
            assert(old(self).joined_projects@.subrange(0, old(self).joined_projects@.len() as int)
                == old(self).joined_projects@);
            assert(self.effects@ =~= old(self)@.left().effects);
            assert(self.participant_user_ids@ =~= (roster_ids(self.remote_participants@) + user_ids(self.pending_participants@)).to_set());
            let l = old(self)@.left();
            assert(self@.shared_projects =~= l.shared_projects);
            assert(self@.joined_projects =~= l.joined_projects);
            assert(self@.remote =~= l.remote);
            assert(self@.pending =~= l.pending);
            assert(self@.participant_user_ids =~= l.participant_user_ids);
            assert(self@ == l);
        }
    }
}

} // verus!
