//! Roster reconciliation: merging a server snapshot of a room into the local
//! roster, and the follower relation.
use vstd::prelude::*;
use crate::types::{
    duplicate_projects, summaries, Effect, Event, FollowerEdge, ParticipantLocation,
    ParticipantProject, ParticipantState, PeerId, ProjectHandle, ProjectSummary, Sound, User,
};

verus! {

/// One connected peer of the room.
#[derive(Clone, Debug, PartialEq, Eq)]
pub struct RemoteParticipant {
    pub user: User,
    pub peer_id: PeerId,
    pub projects: Vec<ParticipantProject>,
    pub location: ParticipantLocation,
    pub muted: bool,
    pub speaking: bool,
    /// Ids of the subscribed remote video tracks.
    pub video_tracks: Vec<String>,
    /// Ids of the subscribed remote audio tracks.
    pub audio_tracks: Vec<String>,
}

/// Value-level model of a [`RemoteParticipant`].
pub struct ParticipantView {
    pub user: User,
    pub peer_id: PeerId,
    pub projects: Seq<ProjectSummary>,
    pub location: ParticipantLocation,
    pub muted: bool,
    pub speaking: bool,
    pub video_tracks: Seq<Seq<char>>,
    pub audio_tracks: Seq<Seq<char>>,
}

/// Models of a sequence of track ids.
pub open spec fn track_ids(s: Seq<String>) -> Seq<Seq<char>> {
    s.map_values(|t: String| t@)
}

impl View for RemoteParticipant {
    type V = ParticipantView;

    open spec fn view(&self) -> ParticipantView {
        ParticipantView {
            user: self.user,
            peer_id: self.peer_id,
            projects: summaries(self.projects@),
            location: self.location,
            muted: self.muted,
            speaking: self.speaking,
            video_tracks: track_ids(self.video_tracks@),
            audio_tracks: track_ids(self.audio_tracks@),
        }
    }
}

/// Value-level model of an [`Event`].
pub enum EventView {
    ParticipantLocationChanged { participant_id: PeerId },
    RemoteVideoTracksChanged { participant_id: PeerId },
    RemoteAudioTracksChanged { participant_id: PeerId },
    RemoteProjectShared { owner: User, project_id: u64, worktree_root_names: Seq<String> },
    RemoteProjectUnshared { project_id: u64 },
    Left,
}

impl View for Event {
    type V = EventView;

    open spec fn view(&self) -> EventView {
        match self {
            Event::ParticipantLocationChanged { participant_id } => EventView::ParticipantLocationChanged {
                participant_id: *participant_id,
            },
            Event::RemoteVideoTracksChanged { participant_id } => EventView::RemoteVideoTracksChanged {
                participant_id: *participant_id,
            },
            Event::RemoteAudioTracksChanged { participant_id } => EventView::RemoteAudioTracksChanged {
                participant_id: *participant_id,
            },
            Event::RemoteProjectShared { owner, project_id, worktree_root_names } => EventView::RemoteProjectShared {
                owner: *owner,
                project_id: *project_id,
                worktree_root_names: worktree_root_names@,
            },
            Event::RemoteProjectUnshared { project_id } => EventView::RemoteProjectUnshared {
                project_id: *project_id,
            },
            Event::Left => EventView::Left,
        }
    }
}

pub open spec fn events_view(s: Seq<Event>) -> Seq<EventView> {
    s.map_values(|e: Event| e@)
}

impl RemoteParticipant {
    pub fn duplicate(&self) -> (r: RemoteParticipant)
        ensures
            r@ == self@,
    {
        let r = RemoteParticipant {
            user: self.user.duplicate(),
            peer_id: self.peer_id,
            projects: duplicate_projects(&self.projects),
            location: self.location,
            muted: self.muted,
            speaking: self.speaking,
            video_tracks: crate::types::duplicate_strings(&self.video_tracks),
            audio_tracks: crate::types::duplicate_strings(&self.audio_tracks),
        };
        r
    }
}

/// Track ids with `t` added; an id already present stays once.
pub open spec fn with_track_id(s: Seq<Seq<char>>, t: Seq<char>) -> Seq<Seq<char>> {
    if s.contains(t) {
        s
    } else {
        s.push(t)
    }
}

/// Track ids with every `t` removed.
pub open spec fn without_track_id(s: Seq<Seq<char>>, t: Seq<char>) -> Seq<Seq<char>>
    decreases s.len(),
{
    if s.len() == 0 {
        s
    } else {
        let prev = without_track_id(s.drop_last(), t);
        if s.last() == t {
            prev
        } else {
            prev.push(s.last())
        }
    }
}

pub fn contains_track(v: &Vec<String>, t: &String) -> (r: bool)
    ensures
        r == track_ids(v@).contains(t@),
{
    let mut k: usize = 0;
    while k < v.len()
        invariant
            k <= v@.len(),
            forall|j: int| 0 <= j < k ==> v@[j]@ != t@,
        decreases v@.len() - k,
    {
        if v[k] == *t {
            assert(track_ids(v@)[k as int] == t@);
            return true;
        }
        k = k + 1;
    }
    proof {
        if track_ids(v@).contains(t@) {
            let j = choose|j: int| 0 <= j < track_ids(v@).len() && track_ids(v@)[j] == t@;
            assert(v@[j]@ == t@);
        }
    }
    false
}

pub fn add_track(v: &mut Vec<String>, t: String)
    ensures
        track_ids(final(v)@) == with_track_id(track_ids(old(v)@), t@),
{
    if !contains_track(v, &t) {
        v.push(t);
        assert(track_ids(v@) =~= track_ids(old(v)@).push(t@));
    }
}

pub fn remove_track(v: &Vec<String>, t: &String) -> (r: Vec<String>)
    ensures
        track_ids(r@) == without_track_id(track_ids(v@), t@),
{
    let mut r: Vec<String> = Vec::new();
    let mut k: usize = 0;
    while k < v.len()
        invariant
            k <= v@.len(),
            track_ids(r@) == without_track_id(track_ids(v@.subrange(0, k as int)), t@),
        decreases v@.len() - k,
    {
        let ghost sub = track_ids(v@.subrange(0, k + 1));
        assert(sub.drop_last() =~= track_ids(v@.subrange(0, k as int)));
        assert(sub.last() == v@[k as int]@);
        if !(v[k] == *t) {
            let ghost prev = r@;
            r.push(v[k].clone());
            assert(track_ids(r@) =~= track_ids(prev).push(v@[k as int]@));
        }
        k = k + 1;
    }
    assert(v@.subrange(0, v@.len() as int) == v@);
    r
}

// ---------------------------------------------------------------------------
// Roster as a map from user id to participant

/// Entries are ordered by strictly increasing user id.
pub open spec fn roster_sorted(s: Seq<RemoteParticipant>) -> bool {
    forall|i: int, j: int| 0 <= i < j < s.len() ==> s[i].user.id < s[j].user.id
}

pub open spec fn roster_has(s: Seq<RemoteParticipant>, uid: u64) -> bool {
    exists|i: int| 0 <= i < s.len() && #[trigger] s[i].user.id == uid
}

/// The roster keyed by user id.
pub open spec fn roster_map(s: Seq<RemoteParticipant>) -> Map<u64, ParticipantView> {
    Map::new(
        |uid: u64| roster_has(s, uid),
        |uid: u64| s[choose|i: int| 0 <= i < s.len() && #[trigger] s[i].user.id == uid]@,
    )
}

pub open spec fn roster_ids(s: Seq<RemoteParticipant>) -> Seq<u64> {
    s.map_values(|p: RemoteParticipant| p.user.id)
}

pub proof fn lemma_roster_map_at(s: Seq<RemoteParticipant>, i: int)
    requires
        roster_sorted(s),
        0 <= i < s.len(),
    ensures
        roster_map(s).contains_key(s[i].user.id),
        roster_map(s)[s[i].user.id] == s[i]@,
{
    let uid = s[i].user.id;
    assert(roster_has(s, uid));
    let j = choose|j: int| 0 <= j < s.len() && #[trigger] s[j].user.id == uid;
    if j < i {
        assert(s[j].user.id < s[i].user.id);
    } else if i < j {
        assert(s[i].user.id < s[j].user.id);
    }
}

/// Index at which an entry for `uid` stands or belongs.
pub fn roster_position(roster: &Vec<RemoteParticipant>, uid: u64) -> (r: usize)
    requires
        roster_sorted(roster@),
    ensures
        r <= roster@.len(),
        forall|k: int| 0 <= k < r ==> #[trigger] roster@[k].user.id < uid,
        r < roster@.len() ==> roster@[r as int].user.id >= uid,
        roster_map(roster@).contains_key(uid) <==> (r < roster@.len() && roster@[r as int].user.id
            == uid),
{
    let mut i: usize = 0;
    while i < roster.len() && roster[i].user.id < uid
        invariant
            i <= roster@.len(),
            roster_sorted(roster@),
            forall|k: int| 0 <= k < i ==> #[trigger] roster@[k].user.id < uid,
        decreases roster@.len() - i,
    {
        i = i + 1;
    }
    proof {
        if roster_map(roster@).contains_key(uid) {
            let j = choose|j: int| 0 <= j < roster@.len() && #[trigger] roster@[j].user.id == uid;
            if j < i {
                assert(roster@[j].user.id < uid);
            } else if i < j {
                assert(roster@[i as int].user.id < roster@[j].user.id);
            }
        }
        if i < roster@.len() && roster@[i as int].user.id == uid {
            assert(roster_has(roster@, uid));
        }
    }
    i
}

/// A sorted roster whose entries are exactly the entries of `m`.
pub proof fn lemma_roster_map_char(s: Seq<RemoteParticipant>, m: Map<u64, ParticipantView>)
    requires
        roster_sorted(s),
        forall|i: int| 0 <= i < s.len() ==> m.contains_key(#[trigger] s[i].user.id) && m[s[i].user.id] == s[i]@,
        forall|uid: u64| #[trigger] m.contains_key(uid) ==> roster_has(s, uid),
    ensures
        roster_map(s) == m,
{
    assert forall|uid: u64| #[trigger] roster_map(s).contains_key(uid) <==> m.contains_key(uid) by {
        if roster_has(s, uid) {
            let i = choose|i: int| 0 <= i < s.len() && #[trigger] s[i].user.id == uid;
            assert(m.contains_key(s[i].user.id));
        }
    }
    assert forall|uid: u64| #[trigger] m.contains_key(uid) implies roster_map(s)[uid] == m[uid] by {
        let i = choose|i: int| 0 <= i < s.len() && #[trigger] s[i].user.id == uid;
        lemma_roster_map_at(s, i);
    }
    assert(roster_map(s) =~= m);
}

/// Replacing an entry by one for the same user replaces it in the map.
pub proof fn lemma_roster_update(s: Seq<RemoteParticipant>, i: int, x: RemoteParticipant)
    requires
        roster_sorted(s),
        0 <= i < s.len(),
        x.user.id == s[i].user.id,
    ensures
        roster_sorted(s.update(i, x)),
        roster_map(s.update(i, x)) == roster_map(s).insert(x.user.id, x@),
{
    let t = s.update(i, x);
    let want = roster_map(s).insert(x.user.id, x@);
    assert(roster_sorted(t)) by {
        assert forall|a: int, b: int| 0 <= a < b < t.len() implies t[a].user.id < t[b].user.id by {
            assert(s[a].user.id < s[b].user.id);
        }
    }
    assert forall|a: int| 0 <= a < t.len() implies want.contains_key(#[trigger] t[a].user.id) && want[t[a].user.id] == t[a]@ by {
        if a != i {
            lemma_roster_map_at(s, a);
            if a < i {
                assert(s[a].user.id < s[i].user.id);
            } else {
                assert(s[i].user.id < s[a].user.id);
            }
        }
    }
    assert forall|u: u64| #[trigger] want.contains_key(u) implies roster_has(t, u) by {
        if u == x.user.id {
            assert(t[i].user.id == u);
        } else {
            let a = choose|a: int| 0 <= a < s.len() && #[trigger] s[a].user.id == u;
            assert(t[a] == s[a]);
        }
    }
    lemma_roster_map_char(t, want);
}

/// Entries of a sorted roster whose user ids are in `keep`.
pub open spec fn kept_entries(s: Seq<RemoteParticipant>, keep: Seq<u64>) -> Seq<RemoteParticipant>
    decreases s.len(),
{
    if s.len() == 0 {
        Seq::empty()
    } else {
        let prev = kept_entries(s.drop_last(), keep);
        if keep.contains(s.last().user.id) {
            prev.push(s.last())
        } else {
            prev
        }
    }
}

pub open spec fn unshared_events(ids: Seq<u64>) -> Seq<EventView> {
    ids.map_values(|id: u64| EventView::RemoteProjectUnshared { project_id: id })
}

pub open spec fn project_ids(ps: Seq<ProjectSummary>) -> Seq<u64> {
    ps.map_values(|p: ProjectSummary| p.id)
}

/// Events for the entries of `s` whose user ids are not in `keep`: each of
/// their projects is unshared.
pub open spec fn departure_events(s: Seq<RemoteParticipant>, keep: Seq<u64>) -> Seq<EventView>
    decreases s.len(),
{
    if s.len() == 0 {
        Seq::empty()
    } else {
        let prev = departure_events(s.drop_last(), keep);
        if keep.contains(s.last().user.id) {
            prev
        } else {
            prev + unshared_events(project_ids(s.last()@.projects))
        }
    }
}

/// Removes the participants whose user ids are not in `keep`, announcing
/// that their projects are no longer shared.
pub fn remove_departed(roster: &mut Vec<RemoteParticipant>, keep: &Vec<u64>, events: &mut Vec<Event>)
    requires
        roster_sorted(old(roster)@),
    ensures
        roster_sorted(final(roster)@),
        roster_map(final(roster)@) == roster_map(old(roster)@).restrict(keep@.to_set()),
        events_view(final(events)@) == events_view(old(events)@) + departure_events(old(roster)@, keep@),
{
    let ghost orig = roster@;
    let ghost ev0 = events@;
    let mut i: usize = 0;
    let mut j: usize = 0;
    let n = roster.len();
    while j < n
        invariant
            n == orig.len(),
            i <= j <= n,
            roster_sorted(orig),
            roster@ == kept_entries(orig.subrange(0, j as int), keep@) + orig.subrange(j as int, n as int),
            kept_entries(orig.subrange(0, j as int), keep@).len() == i,
            roster_sorted(kept_entries(orig.subrange(0, j as int), keep@)),
            forall|k: int, m: int| 0 <= k < i && j <= m < n ==> #[trigger] roster@[k].user.id < #[trigger] orig[m].user.id,
            roster_map(kept_entries(orig.subrange(0, j as int), keep@)) == roster_map(orig.subrange(0, j as int)).restrict(keep@.to_set()),
            events_view(events@) == events_view(ev0) + departure_events(orig.subrange(0, j as int), keep@),
        decreases n - j,
    {
        let ghost pre = orig.subrange(0, j as int);
        let ghost post = orig.subrange(0, j + 1);
        let ghost kpre = kept_entries(pre, keep@);
        assert(post.drop_last() == pre);
        assert(post.last() == orig[j as int]);
        assert(roster@[i as int] == orig[j as int]);
        let uid = roster[i].user.id;
        if contains_id(keep, uid) {
            let ghost kpost = kpre.push(orig[j as int]);
            proof {
                assert(kept_entries(post, keep@) == kpost);
                assert(roster_sorted(kpost)) by {
                    assert forall|a: int, b: int| 0 <= a < b < kpost.len() implies kpost[a].user.id < kpost[b].user.id by {
                        if b == kpre.len() {
                            assert(roster@[a] == kpre[a]);
                        }
                    }
                }
                lemma_roster_prefix_map(orig, j as int);
                {
                    assert forall|a: int| 0 <= a < kpost.len() implies roster_map(post).restrict(keep@.to_set()).contains_key(#[trigger] kpost[a].user.id)
                        && roster_map(post).restrict(keep@.to_set())[kpost[a].user.id] == kpost[a]@ by {
                        if a < kpre.len() {
                            lemma_roster_map_at(kpre, a);
                            assert(kpost[a] == kpre[a]);
                            assert(kpre[a].user.id != orig[j as int].user.id) by {
                                assert(roster@[a] == kpre[a]);
                            }
                        }
                    }
                    assert forall|u: u64| #[trigger] roster_map(post).restrict(keep@.to_set()).contains_key(u) implies roster_has(kpost, u) by {
                        if u != orig[j as int].user.id {
                            assert(roster_map(kpre).contains_key(u));
                            let a = choose|a: int| 0 <= a < kpre.len() && #[trigger] kpre[a].user.id == u;
                            assert(kpost[a] == kpre[a]);
                        } else {
                            assert(kpost[kpre.len() as int].user.id == u);
                        }
                    }
                }
                lemma_roster_map_char(kpost, roster_map(post).restrict(keep@.to_set()));
            }
            i = i + 1;
        } else {
            let gone = roster.remove(i);
            let ghost before = events@;
            push_unshared_events(&gone.projects, events);
            proof {
                assert(kept_entries(post, keep@) == kpre);
                lemma_roster_prefix_map(orig, j as int);
                assert(roster_map(post).restrict(keep@.to_set()) =~= roster_map(pre).restrict(keep@.to_set()));
                assert(events_view(events@) =~= events_view(before) + unshared_events(project_ids(orig[j as int]@.projects)));
                assert(roster@ =~= kpre + orig.subrange(j + 1, n as int));
            }
        }
        proof {
            assert(roster@ =~= kept_entries(post, keep@) + orig.subrange(j + 1, n as int));
        }
        j = j + 1;
    }
    proof {
        assert(orig.subrange(0, n as int) == orig);
        assert(orig.subrange(n as int, n as int) =~= Seq::<RemoteParticipant>::empty());
        assert(roster@ =~= kept_entries(orig, keep@));
    }
}

/// Extending a sorted prefix by its next entry adds that entry to its map.
pub proof fn lemma_roster_prefix_map(s: Seq<RemoteParticipant>, j: int)
    requires
        roster_sorted(s),
        0 <= j < s.len(),
    ensures
        roster_map(s.subrange(0, j + 1)) == roster_map(s.subrange(0, j)).insert(s[j].user.id, s[j]@),
        !roster_map(s.subrange(0, j)).contains_key(s[j].user.id),
{
    let pre = s.subrange(0, j);
    let post = s.subrange(0, j + 1);
    let m = roster_map(pre).insert(s[j].user.id, s[j]@);
    if roster_has(pre, s[j].user.id) {
        let a = choose|a: int| 0 <= a < pre.len() && #[trigger] pre[a].user.id == s[j].user.id;
        assert(s[a].user.id < s[j].user.id);
    }
    assert forall|a: int| 0 <= a < post.len() implies m.contains_key(#[trigger] post[a].user.id) && m[post[a].user.id] == post[a]@ by {
        if a < j {
            lemma_roster_map_at(pre, a);
            assert(s[a].user.id < s[j].user.id);
        }
    }
    assert forall|u: u64| #[trigger] m.contains_key(u) implies roster_has(post, u) by {
        if u == s[j].user.id {
            assert(post[j].user.id == u);
        } else {
            let a = choose|a: int| 0 <= a < pre.len() && #[trigger] pre[a].user.id == u;
            assert(post[a] == pre[a]);
        }
    }
    lemma_roster_map_char(post, m);
}

fn push_unshared_events(projects: &Vec<ParticipantProject>, events: &mut Vec<Event>)
    ensures
        events_view(final(events)@) == events_view(old(events)@) + unshared_events(project_ids(summaries(projects@))),
{
    let ghost ev0 = events@;
    let mut k: usize = 0;
    while k < projects.len()
        invariant
            k <= projects@.len(),
            events@.len() == ev0.len() + k,
            events_view(events@) =~= events_view(ev0) + unshared_events(project_ids(summaries(projects@.subrange(0, k as int)))),
        decreases projects@.len() - k,
    {
        let ghost prev = events@;
        events.push(Event::RemoteProjectUnshared { project_id: projects[k].id });
        k = k + 1;
        proof {
            let want = events_view(ev0) + unshared_events(project_ids(summaries(projects@.subrange(0, k as int))));
            let was = events_view(ev0) + unshared_events(project_ids(summaries(projects@.subrange(0, k - 1))));
            assert forall|x: int| 0 <= x < events@.len() implies events_view(events@)[x] == want[x] by {
                if x < ev0.len() + k - 1 {
                    assert(events@[x] == prev[x]);
                    assert(events_view(prev)[x] == was[x]);
                }
            }
        }
    }
    assert(projects@.subrange(0, projects@.len() as int) == projects@);
}

// ---------------------------------------------------------------------------
// Merging one snapshot entry

/// A roster entry after merging snapshot entry `c`, whose identity resolved
/// to `u`, over the previous entry `old`.
pub open spec fn merged_entry(old: Option<ParticipantView>, c: ParticipantState, u: User) -> ParticipantView {
    match old {
        Some(o) => ParticipantView {
            peer_id: c.peer_id->0,
            projects: summaries(c.projects@),
            location: declared_location(c),
            ..o
        },
        None => ParticipantView {
            user: u,
            peer_id: c.peer_id->0,
            projects: summaries(c.projects@),
            location: declared_location(c),
            muted: true,
            speaking: false,
            video_tracks: Seq::empty(),
            audio_tracks: Seq::empty(),
        },
    }
}

pub open spec fn previous_projects(old: Option<ParticipantView>) -> Seq<ProjectSummary> {
    match old {
        Some(o) => o.projects,
        None => Seq::empty(),
    }
}

/// `RemoteProjectShared` for each project of `ps` whose id is not in `old_ids`.
pub open spec fn shared_events(ps: Seq<ProjectSummary>, old_ids: Seq<u64>, owner: User) -> Seq<EventView>
    decreases ps.len(),
{
    if ps.len() == 0 {
        Seq::empty()
    } else {
        let prev = shared_events(ps.drop_last(), old_ids, owner);
        if old_ids.contains(ps.last().id) {
            prev
        } else {
            prev.push(
                EventView::RemoteProjectShared {
                    owner,
                    project_id: ps.last().id,
                    worktree_root_names: ps.last().worktree_root_names,
                },
            )
        }
    }
}

/// The ids of `ids` that are not in `other`, in order.
pub open spec fn ids_not_in(ids: Seq<u64>, other: Seq<u64>) -> Seq<u64>
    decreases ids.len(),
{
    if ids.len() == 0 {
        Seq::empty()
    } else {
        let prev = ids_not_in(ids.drop_last(), other);
        if other.contains(ids.last()) {
            prev
        } else {
            prev.push(ids.last())
        }
    }
}

/// Project ids that entry `c` no longer shares.
pub open spec fn entry_unshared(old: Option<ParticipantView>, c: ParticipantState) -> Seq<u64> {
    ids_not_in(project_ids(previous_projects(old)), project_ids(summaries(c.projects@)))
}

/// Events of merging entry `c`: newly shared projects, then projects no
/// longer shared, then a location change of a known participant.
pub open spec fn entry_events(old: Option<ParticipantView>, c: ParticipantState, u: User) -> Seq<EventView> {
    let moved = match old {
        Some(o) => o.location != declared_location(c),
        None => false,
    };
    shared_events(summaries(c.projects@), project_ids(previous_projects(old)), u) + unshared_events(
        entry_unshared(old, c),
    ) + if moved {
        seq![EventView::ParticipantLocationChanged { participant_id: c.peer_id->0 }]
    } else {
        Seq::empty()
    }
}

/// Effects of merging an entry: a participant seen for the first time plays
/// the join chime and, with a media session, has its tracks hydrated.
pub open spec fn entry_effects(old: Option<ParticipantView>, uid: u64, media: bool) -> Seq<Effect> {
    if old is Some {
        Seq::empty()
    } else if media {
        seq![Effect::PlaySound { sound: Sound::Joined }, Effect::HydrateTracks { user_id: uid }]
    } else {
        seq![Effect::PlaySound { sound: Sound::Joined }]
    }
}

fn ids_of(ps: &Vec<ParticipantProject>) -> (r: Vec<u64>)
    ensures
        r@ == project_ids(summaries(ps@)),
{
    let mut r: Vec<u64> = Vec::new();
    let mut k: usize = 0;
    while k < ps.len()
        invariant
            k <= ps@.len(),
            r@ =~= project_ids(summaries(ps@.subrange(0, k as int))),
        decreases ps@.len() - k,
    {
        r.push(ps[k].id);
        k = k + 1;
    }
    assert(ps@.subrange(0, ps@.len() as int) == ps@);
    r
}

fn push_shared_events(ps: &Vec<ParticipantProject>, old_ids: &Vec<u64>, owner: &User, events: &mut Vec<Event>)
    ensures
        events_view(final(events)@) == events_view(old(events)@) + shared_events(summaries(ps@), old_ids@, *owner),
{
    let ghost ev0 = events@;
    let mut k: usize = 0;
    while k < ps.len()
        invariant
            k <= ps@.len(),
            events_view(events@) == events_view(ev0) + shared_events(summaries(ps@.subrange(0, k as int)), old_ids@, *owner),
        decreases ps@.len() - k,
    {
        let ghost sub = summaries(ps@.subrange(0, k + 1));
        assert(sub.drop_last() =~= summaries(ps@.subrange(0, k as int)));
        assert(sub.last() == ps@[k as int]@);
        let ghost prev = events@;
        if !contains_id(old_ids, ps[k].id) {
            events.push(
                Event::RemoteProjectShared {
                    owner: owner.duplicate(),
                    project_id: ps[k].id,
                    worktree_root_names: crate::types::duplicate_strings(&ps[k].worktree_root_names),
                },
            );
            assert(events_view(events@) =~= events_view(prev).push(events@.last()@));
        }
        k = k + 1;
    }
    assert(ps@.subrange(0, ps@.len() as int) == ps@);
}

fn push_unshared(
    old_ids: &Vec<u64>,
    new_ids: &Vec<u64>,
    events: &mut Vec<Event>,
    unshared: &mut Vec<u64>,
)
    ensures
        events_view(final(events)@) == events_view(old(events)@) + unshared_events(ids_not_in(old_ids@, new_ids@)),
        final(unshared)@ == old(unshared)@ + ids_not_in(old_ids@, new_ids@),
{
    let ghost ev0 = events@;
    let ghost un0 = unshared@;
    let mut k: usize = 0;
    while k < old_ids.len()
        invariant
            k <= old_ids@.len(),
            events_view(events@) == events_view(ev0) + unshared_events(ids_not_in(old_ids@.subrange(0, k as int), new_ids@)),
            unshared@ == un0 + ids_not_in(old_ids@.subrange(0, k as int), new_ids@),
        decreases old_ids@.len() - k,
    {
        let ghost sub = old_ids@.subrange(0, k + 1);
        assert(sub.drop_last() =~= old_ids@.subrange(0, k as int));
        let ghost prev = events@;
        let id = old_ids[k];
        if !contains_id(new_ids, id) {
            events.push(Event::RemoteProjectUnshared { project_id: id });
            unshared.push(id);
            assert(events_view(events@) =~= events_view(prev).push(events@.last()@));
            assert(unshared_events(ids_not_in(sub, new_ids@)) =~= unshared_events(ids_not_in(old_ids@.subrange(0, k as int), new_ids@)).push(
                EventView::RemoteProjectUnshared { project_id: id }));
        }
        k = k + 1;
        assert(unshared@ =~= un0 + ids_not_in(old_ids@.subrange(0, k as int), new_ids@));
    }
    assert(old_ids@.subrange(0, old_ids@.len() as int) == old_ids@);
}

/// Merges one accepted snapshot entry into the roster.
#[verifier::rlimit(60)]
pub fn merge_entry(
    roster: &mut Vec<RemoteParticipant>,
    c: &ParticipantState,
    u: &User,
    media: bool,
    events: &mut Vec<Event>,
    effects: &mut Vec<Effect>,
    unshared: &mut Vec<u64>,
)
    requires
        roster_sorted(old(roster)@),
        c.peer_id is Some,
        u.id == c.user_id,
    ensures
        roster_sorted(final(roster)@),
        roster_map(final(roster)@) == roster_map(old(roster)@).insert(
            c.user_id,
            merged_entry(roster_map(old(roster)@).get(c.user_id), *c, *u),
        ),
        events_view(final(events)@) == events_view(old(events)@) + entry_events(
            roster_map(old(roster)@).get(c.user_id),
            *c,
            *u,
        ),
        final(effects)@ == old(effects)@ + entry_effects(roster_map(old(roster)@).get(c.user_id), c.user_id, media),
        final(unshared)@ == old(unshared)@ + entry_unshared(roster_map(old(roster)@).get(c.user_id), *c),
{
    let ghost s = roster@;
    let ghost m = roster_map(s);
    let ghost old_entry = m.get(c.user_id);
    let uid = c.user_id;
    let peer_id = c.peer_id.unwrap();
    let location = match c.location {
        Some(l) => l,
        None => ParticipantLocation::External,
    };
    let pos = roster_position(roster, uid);
    let new_ids = ids_of(&c.projects);
    if pos < roster.len() && roster[pos].user.id == uid {
        proof {
            lemma_roster_map_at(s, pos as int);
        }
        let old_ids = ids_of(&roster[pos].projects);
        push_shared_events(&c.projects, &old_ids, u, events);
        push_unshared(&old_ids, &new_ids, events, unshared);
        let ghost ev2 = events@;
        if roster[pos].location != location {
            events.push(Event::ParticipantLocationChanged { participant_id: peer_id });
            assert(events_view(events@) =~= events_view(ev2).push(events@.last()@));
        }
        let prev = roster.remove(pos);
        let entry = RemoteParticipant {
            user: prev.user,
            peer_id,
            projects: duplicate_projects(&c.projects),
            location,
            muted: prev.muted,
            speaking: prev.speaking,
            video_tracks: prev.video_tracks,
            audio_tracks: prev.audio_tracks,
        };
        roster.insert(pos, entry);
        proof {
            let t = roster@;
            assert(t =~= s.update(pos as int, t[pos as int]));
            let want = m.insert(uid, merged_entry(old_entry, *c, *u));
            assert(t[pos as int]@ == merged_entry(old_entry, *c, *u));
            assert(roster_sorted(t)) by {
                assert forall|a: int, b: int| 0 <= a < b < t.len() implies t[a].user.id < t[b].user.id by {
                    assert(s[a].user.id < s[b].user.id);
                }
            }
            assert forall|a: int| 0 <= a < t.len() implies want.contains_key(#[trigger] t[a].user.id) && want[t[a].user.id] == t[a]@ by {
                if a != pos {
                    lemma_roster_map_at(s, a);
                    if a < pos {
                        assert(s[a].user.id < s[pos as int].user.id);
                    } else {
                        assert(s[pos as int].user.id < s[a].user.id);
                    }
                }
            }
            assert forall|x: u64| #[trigger] want.contains_key(x) implies roster_has(t, x) by {
                if x == uid {
                    assert(t[pos as int].user.id == x);
                } else {
                    let a = choose|a: int| 0 <= a < s.len() && #[trigger] s[a].user.id == x;
                    assert(t[a] == s[a]);
                }
            }
            lemma_roster_map_char(t, want);
        }
    } else {
        let no_ids: Vec<u64> = Vec::new();
        push_shared_events(&c.projects, &no_ids, u, events);
        proof {
            assert(ids_not_in(Seq::<u64>::empty(), new_ids@) =~= Seq::<u64>::empty());
            assert(project_ids(previous_projects(old_entry)) =~= Seq::<u64>::empty());
            assert(events_view(events@) =~= events_view(old(events)@) + entry_events(old_entry, *c, *u));
            assert(unshared@ =~= old(unshared)@ + entry_unshared(old_entry, *c));
        }
        effects.push(Effect::PlaySound { sound: Sound::Joined });
        if media {
            effects.push(Effect::HydrateTracks { user_id: uid });
        }
        let entry = RemoteParticipant {
            user: u.duplicate(),
            peer_id,
            projects: duplicate_projects(&c.projects),
            location,
            muted: true,
            speaking: false,
            video_tracks: Vec::new(),
            audio_tracks: Vec::new(),
        };
        roster.insert(pos, entry);
        proof {
            let t = roster@;
            let want = m.insert(uid, merged_entry(old_entry, *c, *u));
            assert(t[pos as int]@ == merged_entry(old_entry, *c, *u)) by {
                assert(t[pos as int]@.video_tracks =~= Seq::<Seq<char>>::empty());
                assert(t[pos as int]@.audio_tracks =~= Seq::<Seq<char>>::empty());
            }
            assert forall|a: int| 0 <= a < t.len() && a != pos implies (#[trigger] t[a]) == if a < pos { s[a] } else { s[a - 1] } by {}
            assert forall|a: int| pos <= a < s.len() implies #[trigger] s[a].user.id > uid by {
                if a > pos {
                    assert(s[pos as int].user.id < s[a].user.id);
                }
            }
            assert(roster_sorted(t)) by {
                assert forall|a: int, b: int| 0 <= a < b < t.len() implies t[a].user.id < t[b].user.id by {
                    if a < pos && b > pos {
                        assert(s[a].user.id < s[b - 1].user.id);
                    } else if a > pos {
                        assert(s[a - 1].user.id < s[b - 1].user.id);
                    } else if b < pos {
                        assert(s[a].user.id < s[b].user.id);
                    }
                }
            }
            assert forall|a: int| 0 <= a < t.len() implies want.contains_key(#[trigger] t[a].user.id) && want[t[a].user.id] == t[a]@ by {
                if a < pos {
                    lemma_roster_map_at(s, a);
                } else if a > pos {
                    lemma_roster_map_at(s, a - 1);
                }
            }
            assert forall|x: u64| #[trigger] want.contains_key(x) implies roster_has(t, x) by {
                if x == uid {
                    assert(t[pos as int].user.id == x);
                } else {
                    let a = choose|a: int| 0 <= a < s.len() && #[trigger] s[a].user.id == x;
                    if a < pos {
                        assert(t[a] == s[a]);
                    } else {
                        assert(t[a + 1] == s[a]);
                    }
                }
            }
            lemma_roster_map_char(t, want);
        }
    }
}

// ---------------------------------------------------------------------------
// Which snapshot entries are taken

/// The location a snapshot entry declares; a missing one counts as external.
pub open spec fn declared_location(c: ParticipantState) -> ParticipantLocation {
    match c.location {
        Some(l) => l,
        None => ParticipantLocation::External,
    }
}

/// Entry `i` of the snapshot is usable: it has a peer, its resolved identity
/// is the user it names, and it is not the local user.
pub open spec fn entry_usable(cands: Seq<ParticipantState>, users: Seq<User>, local: u64, i: int) -> bool {
    &&& 0 <= i < cands.len()
    &&& i < users.len()
    &&& cands[i].peer_id is Some
    &&& users[i].id == cands[i].user_id
    &&& cands[i].user_id != local
}

/// User ids taken from the first `n` snapshot entries, in order; a user that
/// appears twice is taken at its first usable entry.
pub open spec fn accepted_ids(cands: Seq<ParticipantState>, users: Seq<User>, local: u64, n: int) -> Seq<u64>
    decreases n,
{
    if n <= 0 {
        Seq::empty()
    } else {
        let prev = accepted_ids(cands, users, local, n - 1);
        if entry_usable(cands, users, local, n - 1) && !prev.contains(cands[n - 1].user_id) {
            prev.push(cands[n - 1].user_id)
        } else {
            prev
        }
    }
}

pub open spec fn entry_accepted(cands: Seq<ParticipantState>, users: Seq<User>, local: u64, i: int) -> bool {
    entry_usable(cands, users, local, i) && !accepted_ids(cands, users, local, i).contains(cands[i].user_id)
}

pub fn accepted_user_ids(cands: &Vec<ParticipantState>, users: &Vec<User>, local: u64) -> (r: Vec<u64>)
    ensures
        r@ == accepted_ids(cands@, users@, local, cands@.len() as int),
{
    let mut r: Vec<u64> = Vec::new();
    let mut i: usize = 0;
    while i < cands.len()
        invariant
            i <= cands@.len(),
            r@ == accepted_ids(cands@, users@, local, i as int),
        decreases cands@.len() - i,
    {
        let c = &cands[i];
        if i < users.len() && c.peer_id.is_some() && users[i].id == c.user_id && c.user_id != local
            && !contains_id(&r, c.user_id) {
            r.push(c.user_id);
        }
        i = i + 1;
    }
    r
}

pub fn contains_id(v: &Vec<u64>, x: u64) -> (r: bool)
    ensures
        r == v@.contains(x),
{
    let mut i: usize = 0;
    while i < v.len()
        invariant
            i <= v@.len(),
            forall|k: int| 0 <= k < i ==> v@[k] != x,
        decreases v@.len() - i,
    {
        if v[i] == x {
            assert(v@[i as int] == x);
            return true;
        }
        i = i + 1;
    }
    false
}

/// Roster after merging the first `n` snapshot entries over `base`: only
/// the participants the snapshot names stay, and each accepted entry is
/// merged over its previous entry.
pub open spec fn merge_from(
    base: Map<u64, ParticipantView>,
    cands: Seq<ParticipantState>,
    users: Seq<User>,
    local: u64,
    n: int,
) -> Map<u64, ParticipantView>
    decreases n,
{
    if n <= 0 {
        base.restrict(accepted_ids(cands, users, local, cands.len() as int).to_set())
    } else {
        let prev = merge_from(base, cands, users, local, n - 1);
        if entry_accepted(cands, users, local, n - 1) {
            let c = cands[n - 1];
            prev.insert(c.user_id, merged_entry(base.get(c.user_id), c, users[n - 1]))
        } else {
            prev
        }
    }
}

/// Events of merging the first `n` snapshot entries over `base`.
pub open spec fn merge_events(
    base: Map<u64, ParticipantView>,
    cands: Seq<ParticipantState>,
    users: Seq<User>,
    local: u64,
    n: int,
) -> Seq<EventView>
    decreases n,
{
    if n <= 0 {
        Seq::empty()
    } else {
        let prev = merge_events(base, cands, users, local, n - 1);
        if entry_accepted(cands, users, local, n - 1) {
            let c = cands[n - 1];
            prev + entry_events(base.get(c.user_id), c, users[n - 1])
        } else {
            prev
        }
    }
}

/// Effects of merging the first `n` snapshot entries over `base`.
pub open spec fn merge_effects(
    base: Map<u64, ParticipantView>,
    cands: Seq<ParticipantState>,
    users: Seq<User>,
    local: u64,
    media: bool,
    n: int,
) -> Seq<Effect>
    decreases n,
{
    if n <= 0 {
        Seq::empty()
    } else {
        let prev = merge_effects(base, cands, users, local, media, n - 1);
        if entry_accepted(cands, users, local, n - 1) {
            let c = cands[n - 1];
            prev + entry_effects(base.get(c.user_id), c.user_id, media)
        } else {
            prev
        }
    }
}

/// Project ids that the first `n` snapshot entries no longer share.
pub open spec fn merge_unshared(
    base: Map<u64, ParticipantView>,
    cands: Seq<ParticipantState>,
    users: Seq<User>,
    local: u64,
    n: int,
) -> Seq<u64>
    decreases n,
{
    if n <= 0 {
        Seq::empty()
    } else {
        let prev = merge_unshared(base, cands, users, local, n - 1);
        if entry_accepted(cands, users, local, n - 1) {
            let c = cands[n - 1];
            prev + entry_unshared(base.get(c.user_id), c)
        } else {
            prev
        }
    }
}

pub proof fn lemma_accepted_grows(cands: Seq<ParticipantState>, users: Seq<User>, local: u64, n: int, m: int, x: u64)
    requires
        n <= m,
        accepted_ids(cands, users, local, n).contains(x),
    ensures
        accepted_ids(cands, users, local, m).contains(x),
    decreases m - n,
{
    if n < m {
        lemma_accepted_grows(cands, users, local, n, m - 1, x);
        let prev = accepted_ids(cands, users, local, m - 1);
        if entry_usable(cands, users, local, m - 1) && !prev.contains(cands[m - 1].user_id) {
            let k = choose|k: int| 0 <= k < prev.len() && prev[k] == x;
            assert(prev.push(cands[m - 1].user_id)[k] == x);
        }
    }
}

pub proof fn lemma_merge_untouched(
    base: Map<u64, ParticipantView>,
    cands: Seq<ParticipantState>,
    users: Seq<User>,
    local: u64,
    n: int,
    x: u64,
)
    requires
        0 <= n <= cands.len(),
        !accepted_ids(cands, users, local, n).contains(x),
    ensures
        merge_from(base, cands, users, local, n).get(x) == merge_from(base, cands, users, local, 0).get(x),
    decreases n,
{
    if n > 0 {
        let prev = accepted_ids(cands, users, local, n - 1);
        if prev.contains(x) {
            let k = choose|k: int| 0 <= k < prev.len() && prev[k] == x;
            if entry_usable(cands, users, local, n - 1) && !prev.contains(cands[n - 1].user_id) {
                assert(prev.push(cands[n - 1].user_id)[k] == x);
            }
        }
        lemma_merge_untouched(base, cands, users, local, n - 1, x);
        if entry_accepted(cands, users, local, n - 1) {
            assert(prev.push(cands[n - 1].user_id)[prev.len() as int] == cands[n - 1].user_id);
        }
    }
}

/// Merges the identities that resolved for the snapshot's remote entries
/// into the roster. `users[i]` is the identity resolved for `cands[i]`.
pub fn merge_roster(
    roster: &mut Vec<RemoteParticipant>,
    cands: &Vec<ParticipantState>,
    users: &Vec<User>,
    local: u64,
    media: bool,
    events: &mut Vec<Event>,
    effects: &mut Vec<Effect>,
    unshared: &mut Vec<u64>,
)
    requires
        roster_sorted(old(roster)@),
    ensures
        roster_sorted(final(roster)@),
        roster_map(final(roster)@) == merge_from(roster_map(old(roster)@), cands@, users@, local, cands@.len() as int),
        events_view(final(events)@) == events_view(old(events)@) + departure_events(
            old(roster)@,
            accepted_ids(cands@, users@, local, cands@.len() as int),
        ) + merge_events(roster_map(old(roster)@), cands@, users@, local, cands@.len() as int),
        final(effects)@ == old(effects)@ + merge_effects(roster_map(old(roster)@), cands@, users@, local, media, cands@.len() as int),
        final(unshared)@ == old(unshared)@ + merge_unshared(roster_map(old(roster)@), cands@, users@, local, cands@.len() as int),
{
    let ghost base = roster_map(roster@);
    let ghost ev0 = events@;
    let ghost ef0 = effects@;
    let ghost un0 = unshared@;
    let ghost all = accepted_ids(cands@, users@, local, cands@.len() as int);
    let accepted = accepted_user_ids(cands, users, local);
    remove_departed(roster, &accepted, events);
    let ghost ev1 = events@;
    let mut seen: Vec<u64> = Vec::new();
    let mut i: usize = 0;
    while i < cands.len()
        invariant
            i <= cands@.len(),
            roster_sorted(roster@),
            seen@ == accepted_ids(cands@, users@, local, i as int),
            roster_map(roster@) == merge_from(base, cands@, users@, local, i as int),
            events_view(events@) == events_view(ev1) + merge_events(base, cands@, users@, local, i as int),
            effects@ == ef0 + merge_effects(base, cands@, users@, local, media, i as int),
            unshared@ == un0 + merge_unshared(base, cands@, users@, local, i as int),
        decreases cands@.len() - i,
    {
        let c = &cands[i];
        if i < users.len() && c.peer_id.is_some() && users[i].id == c.user_id && c.user_id != local
            && !contains_id(&seen, c.user_id) {
            proof {
                assert(entry_accepted(cands@, users@, local, i as int));
                lemma_merge_untouched(base, cands@, users@, local, i as int, c.user_id);
                assert(accepted_ids(cands@, users@, local, i + 1).contains(c.user_id)) by {
                    assert(accepted_ids(cands@, users@, local, i + 1)[seen@.len() as int] == c.user_id);
                }
                lemma_accepted_grows(cands@, users@, local, i + 1, cands@.len() as int, c.user_id);
                assert(merge_from(base, cands@, users@, local, i as int).get(c.user_id) == base.get(c.user_id));
            }
            merge_entry(roster, c, &users[i], media, events, effects, unshared);
            seen.push(c.user_id);
            proof {
                assert(events_view(events@) =~= events_view(ev1) + merge_events(base, cands@, users@, local, i + 1));
                assert(effects@ =~= ef0 + merge_effects(base, cands@, users@, local, media, i + 1));
                assert(unshared@ =~= un0 + merge_unshared(base, cands@, users@, local, i + 1));
            }
        }
        i = i + 1;
    }
    proof {
        assert(events_view(events@) =~= events_view(ev0) + departure_events(old(roster)@, all) + merge_events(base, cands@, users@, local, cands@.len() as int));
    }
}

// ---------------------------------------------------------------------------
// Snapshots that repeat the roster

/// The snapshot names exactly the roster's participants, each sharing the
/// same set of project ids and declaring the location the roster holds.
pub open spec fn snapshot_repeats(
    roster: Map<u64, ParticipantView>,
    cands: Seq<ParticipantState>,
    users: Seq<User>,
    local: u64,
) -> bool {
    &&& accepted_ids(cands, users, local, cands.len() as int).to_set() == roster.dom()
    &&& forall|i: int| #[trigger] entry_accepted(cands, users, local, i) ==> {
        &&& project_ids(summaries(cands[i].projects@)).to_set() == project_ids(roster[cands[i].user_id].projects).to_set()
        &&& declared_location(cands[i]) == roster[cands[i].user_id].location
    }
}

proof fn lemma_shared_none(ps: Seq<ProjectSummary>, ids: Seq<u64>, owner: User, n: int)
    requires
        0 <= n <= ps.len(),
        forall|k: int| 0 <= k < ps.len() ==> ids.contains(#[trigger] ps[k].id),
    ensures
        shared_events(ps.subrange(0, n), ids, owner) == Seq::<EventView>::empty(),
    decreases n,
{
    if n > 0 {
        let sub = ps.subrange(0, n);
        assert(sub.drop_last() =~= ps.subrange(0, n - 1));
        lemma_shared_none(ps, ids, owner, n - 1);
        assert(ids.contains(ps[n - 1].id));
    }
}

proof fn lemma_ids_not_in_none(a: Seq<u64>, b: Seq<u64>, n: int)
    requires
        0 <= n <= a.len(),
        forall|k: int| 0 <= k < a.len() ==> b.contains(#[trigger] a[k]),
    ensures
        ids_not_in(a.subrange(0, n), b) == Seq::<u64>::empty(),
    decreases n,
{
    if n > 0 {
        let sub = a.subrange(0, n);
        assert(sub.drop_last() =~= a.subrange(0, n - 1));
        lemma_ids_not_in_none(a, b, n - 1);
        assert(b.contains(a[n - 1]));
    }
}

/// Under `snapshot_repeats`, an accepted entry's projects and the roster's
/// hold the same ids.
proof fn lemma_same_ids(
    base: Map<u64, ParticipantView>,
    cands: Seq<ParticipantState>,
    users: Seq<User>,
    local: u64,
    i: int,
)
    requires
        0 <= i < cands.len(),
        snapshot_repeats(base, cands, users, local),
        entry_accepted(cands, users, local, i),
    ensures
        base.get(cands[i].user_id) == Some(base[cands[i].user_id]),
        ({
            let new_ids = project_ids(summaries(cands[i].projects@));
            let old_ids = project_ids(base[cands[i].user_id].projects);
            &&& forall|k: int| 0 <= k < new_ids.len() ==> old_ids.contains(#[trigger] new_ids[k])
            &&& forall|k: int| 0 <= k < old_ids.len() ==> new_ids.contains(#[trigger] old_ids[k])
        }),
{
    let c = cands[i];
    let all = accepted_ids(cands, users, local, cands.len() as int);
    assert(accepted_ids(cands, users, local, i + 1).contains(c.user_id)) by {
        let prev = accepted_ids(cands, users, local, i);
        assert(prev.push(c.user_id)[prev.len() as int] == c.user_id);
    }
    lemma_accepted_grows(cands, users, local, i + 1, cands.len() as int, c.user_id);
    assert(all.to_set().contains(c.user_id));
    let new_ids = project_ids(summaries(c.projects@));
    let old_ids = project_ids(base[c.user_id].projects);
    assert forall|k: int| 0 <= k < new_ids.len() implies old_ids.contains(#[trigger] new_ids[k]) by {
        assert(new_ids.to_set().contains(new_ids[k]));
        assert(old_ids.to_set().contains(new_ids[k]));
    }
    assert forall|k: int| 0 <= k < old_ids.len() implies new_ids.contains(#[trigger] old_ids[k]) by {
        assert(old_ids.to_set().contains(old_ids[k]));
        assert(new_ids.to_set().contains(old_ids[k]));
    }
}

proof fn lemma_departures_none(s: Seq<RemoteParticipant>, keep: Seq<u64>)
    requires
        forall|k: int| 0 <= k < s.len() ==> keep.contains(#[trigger] s[k].user.id),
    ensures
        departure_events(s, keep) == Seq::<EventView>::empty(),
    decreases s.len(),
{
    if s.len() > 0 {
        let d = s.drop_last();
        assert forall|k: int| 0 <= k < d.len() implies keep.contains(#[trigger] d[k].user.id) by {
            assert(d[k] == s[k]);
        }
        lemma_departures_none(d, keep);
        assert(keep.contains(s[s.len() - 1].user.id));
    }
}

proof fn lemma_merge_events_none(
    base: Map<u64, ParticipantView>,
    cands: Seq<ParticipantState>,
    users: Seq<User>,
    local: u64,
    n: int,
)
    requires
        0 <= n <= cands.len(),
        snapshot_repeats(base, cands, users, local),
    ensures
        merge_events(base, cands, users, local, n) == Seq::<EventView>::empty(),
    decreases n,
{
    if n > 0 {
        lemma_merge_events_none(base, cands, users, local, n - 1);
        if entry_accepted(cands, users, local, n - 1) {
            let c = cands[n - 1];
            lemma_same_ids(base, cands, users, local, n - 1);
            let ps = summaries(c.projects@);
            let old_ids = project_ids(base[c.user_id].projects);
            let new_ids = project_ids(ps);
            assert forall|k: int| 0 <= k < ps.len() implies old_ids.contains(#[trigger] ps[k].id) by {
                assert(new_ids[k] == ps[k].id);
            }
            lemma_shared_none(ps, old_ids, users[n - 1], ps.len() as int);
            assert(ps.subrange(0, ps.len() as int) == ps);
            lemma_ids_not_in_none(old_ids, new_ids, old_ids.len() as int);
            assert(old_ids.subrange(0, old_ids.len() as int) == old_ids);
            assert(unshared_events(Seq::<u64>::empty()) =~= Seq::<EventView>::empty());
            assert(entry_events(base.get(c.user_id), c, users[n - 1]) =~= Seq::<EventView>::empty());
        }
    }
}

/// Merging a snapshot that repeats the roster announces nothing: no
/// participant departs, and no project or location changes.
pub proof fn lemma_repeated_snapshot_silent(
    remote: Seq<RemoteParticipant>,
    cands: Seq<ParticipantState>,
    users: Seq<User>,
    local: u64,
)
    requires
        roster_sorted(remote),
        snapshot_repeats(roster_map(remote), cands, users, local),
    ensures
        departure_events(remote, accepted_ids(cands, users, local, cands.len() as int)) == Seq::<EventView>::empty(),
        merge_events(roster_map(remote), cands, users, local, cands.len() as int) == Seq::<EventView>::empty(),
{
    let all = accepted_ids(cands, users, local, cands.len() as int);
    assert forall|k: int| 0 <= k < remote.len() implies all.contains(#[trigger] remote[k].user.id) by {
        lemma_roster_map_at(remote, k);
        assert(all.to_set().contains(remote[k].user.id));
    }
    lemma_departures_none(remote, all);
    lemma_merge_events_none(roster_map(remote), cands, users, local, cands.len() as int);
}

/// Merging a snapshot that repeats the roster plays no join chime, hydrates
/// no tracks and finds no project unshared.
pub proof fn lemma_repeated_snapshot_quiet(
    base: Map<u64, ParticipantView>,
    cands: Seq<ParticipantState>,
    users: Seq<User>,
    local: u64,
    media: bool,
    n: int,
)
    requires
        0 <= n <= cands.len(),
        snapshot_repeats(base, cands, users, local),
    ensures
        merge_effects(base, cands, users, local, media, n) == Seq::<Effect>::empty(),
        merge_unshared(base, cands, users, local, n) == Seq::<u64>::empty(),
    decreases n,
{
    if n > 0 {
        lemma_repeated_snapshot_quiet(base, cands, users, local, media, n - 1);
        if entry_accepted(cands, users, local, n - 1) {
            let c = cands[n - 1];
            lemma_same_ids(base, cands, users, local, n - 1);
            let old_ids = project_ids(base[c.user_id].projects);
            let new_ids = project_ids(summaries(c.projects@));
            lemma_ids_not_in_none(old_ids, new_ids, old_ids.len() as int);
            assert(old_ids.subrange(0, old_ids.len() as int) == old_ids);
            assert(merge_effects(base, cands, users, local, media, n) =~= Seq::<Effect>::empty());
            assert(merge_unshared(base, cands, users, local, n) =~= Seq::<u64>::empty());
        }
    }
}

/// With no project unshared, no joined project is disconnected.
pub proof fn lemma_no_disconnects(joined: Seq<ProjectHandle>, reg: Seq<crate::types::ProjectInfo>)
    ensures
        disconnect_effects(joined, reg, Seq::<u64>::empty()) == Seq::<Effect>::empty(),
    decreases joined.len(),
{
    if joined.len() > 0 {
        lemma_no_disconnects(joined.drop_last(), reg);
    }
}

// ---------------------------------------------------------------------------
// Pending invitees

pub open spec fn user_ids(s: Seq<User>) -> Seq<u64> {
    s.map_values(|u: User| u.id)
}

/// Invitees that may stand in the pending list beside a roster whose user
/// ids are `taken`: not the local user, not a connected participant, and each
/// user once, at its first place.
pub open spec fn pending_kept(base: Seq<User>, taken: Set<u64>, local: u64) -> Seq<User>
    decreases base.len(),
{
    if base.len() == 0 {
        Seq::empty()
    } else {
        let prev = pending_kept(base.drop_last(), taken, local);
        let u = base.last();
        if u.id != local && !taken.contains(u.id) && !user_ids(prev).contains(u.id) {
            prev.push(u)
        } else {
            prev
        }
    }
}

pub fn filter_pending(base: Vec<User>, roster: &Vec<RemoteParticipant>, local: u64) -> (r: Vec<User>)
    requires
        roster_sorted(roster@),
    ensures
        r@ == pending_kept(base@, roster_map(roster@).dom(), local),
{
    let mut r: Vec<User> = Vec::new();
    let mut ids: Vec<u64> = Vec::new();
    let mut k: usize = 0;
    while k < base.len()
        invariant
            k <= base@.len(),
            roster_sorted(roster@),
            r@ == pending_kept(base@.subrange(0, k as int), roster_map(roster@).dom(), local),
            ids@ == user_ids(r@),
        decreases base@.len() - k,
    {
        let ghost sub = base@.subrange(0, k + 1);
        assert(sub.drop_last() =~= base@.subrange(0, k as int));
        let u = &base[k];
        let pos = roster_position(roster, u.id);
        let in_roster = pos < roster.len() && roster[pos].user.id == u.id;
        if u.id != local && !in_roster && !contains_id(&ids, u.id) {
            r.push(u.duplicate());
            ids.push(u.id);
            assert(ids@ =~= user_ids(r@));
        }
        k = k + 1;
    }
    assert(base@.subrange(0, base@.len() as int) == base@);
    r
}

pub proof fn lemma_pending_kept(base: Seq<User>, taken: Set<u64>, local: u64)
    ensures
        forall|k: int| 0 <= k < pending_kept(base, taken, local).len() ==> {
            let u = #[trigger] pending_kept(base, taken, local)[k];
            u.id != local && !taken.contains(u.id)
        },
        forall|a: int, b: int| 0 <= a < b < pending_kept(base, taken, local).len() ==>
            (#[trigger] pending_kept(base, taken, local)[a]).id != (#[trigger] pending_kept(base, taken, local)[b]).id,
    decreases base.len(),
{
    if base.len() > 0 {
        lemma_pending_kept(base.drop_last(), taken, local);
        let prev = pending_kept(base.drop_last(), taken, local);
        let u = base.last();
        if u.id != local && !taken.contains(u.id) && !user_ids(prev).contains(u.id) {
            let now = prev.push(u);
            assert forall|a: int, b: int| 0 <= a < b < now.len() implies now[a].id != now[b].id by {
                if b == prev.len() {
                    assert(user_ids(prev)[a] == prev[a].id);
                }
            }
        }
    }
}

// ---------------------------------------------------------------------------
// Project registry

/// What the registry reports for a handle; `None` when the project is gone.
pub open spec fn registry_lookup(reg: Seq<crate::types::ProjectInfo>, h: ProjectHandle) -> Option<crate::types::ProjectInfo>
    decreases reg.len(),
{
    if reg.len() == 0 {
        None
    } else if reg.last().handle == h {
        Some(reg.last())
    } else {
        registry_lookup(reg.drop_last(), h)
    }
}

pub fn lookup_project(reg: &Vec<crate::types::ProjectInfo>, h: ProjectHandle) -> (r: Option<crate::types::ProjectInfo>)
    ensures
        r == registry_lookup(reg@, h),
{
    let mut k: usize = reg.len();
    assert(reg@.subrange(0, k as int) == reg@);
    while k > 0
        invariant
            k <= reg@.len(),
            registry_lookup(reg@, h) == registry_lookup(reg@.subrange(0, k as int), h),
        decreases k,
    {
        let ghost sub = reg@.subrange(0, k as int);
        assert(sub.drop_last() =~= reg@.subrange(0, k - 1));
        if reg[k - 1].handle == h {
            return Some(reg[k - 1]);
        }
        k = k - 1;
    }
    None
}

/// The joined project is still open and its host still shares it.
pub open spec fn joined_stays(reg: Seq<crate::types::ProjectInfo>, h: ProjectHandle, unshared: Seq<u64>) -> bool {
    match registry_lookup(reg, h) {
        Some(info) => !(info.remote_id matches Some(rid) && unshared.contains(rid)),
        None => false,
    }
}

pub open spec fn joined_after(joined: Seq<ProjectHandle>, reg: Seq<crate::types::ProjectInfo>, unshared: Seq<u64>) -> Seq<ProjectHandle>
    decreases joined.len(),
{
    if joined.len() == 0 {
        Seq::empty()
    } else {
        let prev = joined_after(joined.drop_last(), reg, unshared);
        if joined_stays(reg, joined.last(), unshared) {
            prev.push(joined.last())
        } else {
            prev
        }
    }
}

/// Joined projects that are open and whose host stopped sharing them are
/// disconnected.
pub open spec fn disconnect_effects(joined: Seq<ProjectHandle>, reg: Seq<crate::types::ProjectInfo>, unshared: Seq<u64>) -> Seq<Effect>
    decreases joined.len(),
{
    if joined.len() == 0 {
        Seq::empty()
    } else {
        let prev = disconnect_effects(joined.drop_last(), reg, unshared);
        let h = joined.last();
        if registry_lookup(reg, h) is Some && !joined_stays(reg, h, unshared) {
            prev.push(Effect::DisconnectJoinedProject { project: h })
        } else {
            prev
        }
    }
}

/// Drops joined projects that closed or whose host stopped sharing them.
pub fn prune_joined(
    joined: &Vec<ProjectHandle>,
    reg: &Vec<crate::types::ProjectInfo>,
    unshared: &Vec<u64>,
    effects: &mut Vec<Effect>,
) -> (r: Vec<ProjectHandle>)
    ensures
        r@ == joined_after(joined@, reg@, unshared@),
        final(effects)@ == old(effects)@ + disconnect_effects(joined@, reg@, unshared@),
{
    let ghost ef0 = effects@;
    let mut r: Vec<ProjectHandle> = Vec::new();
    let mut k: usize = 0;
    while k < joined.len()
        invariant
            k <= joined@.len(),
            r@ == joined_after(joined@.subrange(0, k as int), reg@, unshared@),
            effects@ == ef0 + disconnect_effects(joined@.subrange(0, k as int), reg@, unshared@),
        decreases joined@.len() - k,
    {
        let ghost sub = joined@.subrange(0, k + 1);
        assert(sub.drop_last() =~= joined@.subrange(0, k as int));
        let h = joined[k];
        match lookup_project(reg, h) {
            Some(info) => {
                let stop = match info.remote_id {
                    Some(rid) => contains_id(unshared, rid),
                    None => false,
                };
                if stop {
                    effects.push(Effect::DisconnectJoinedProject { project: h });
                } else {
                    r.push(h);
                }
            },
            None => {},
        }
        k = k + 1;
        assert(effects@ =~= ef0 + disconnect_effects(joined@.subrange(0, k as int), reg@, unshared@));
    }
    assert(joined@.subrange(0, joined@.len() as int) == joined@);
    r
}

// ---------------------------------------------------------------------------
// Followers

pub open spec fn edge_key_is(e: FollowerEdge, leader: PeerId, project_id: Option<u64>) -> bool {
    e.leader_id == Some(leader) && e.project_id == project_id
}

/// Followers of `leader` in `project_id` according to `edges`: edges missing
/// a leader or a follower are ignored, and each follower is listed once, at
/// its first edge.
pub open spec fn followers_of(edges: Seq<FollowerEdge>, leader: PeerId, project_id: Option<u64>) -> Seq<PeerId>
    decreases edges.len(),
{
    if edges.len() == 0 {
        Seq::empty()
    } else {
        let prev = followers_of(edges.drop_last(), leader, project_id);
        let e = edges.last();
        if edge_key_is(e, leader, project_id) && e.follower_id is Some && !prev.contains(
            e.follower_id->0,
        ) {
            prev.push(e.follower_id->0)
        } else {
            prev
        }
    }
}

/// Followers listed under one key of a table of complete edges.
pub open spec fn table_followers(table: Seq<FollowerEdge>, leader: PeerId, project_id: Option<u64>) -> Seq<PeerId>
    decreases table.len(),
{
    if table.len() == 0 {
        Seq::empty()
    } else {
        let prev = table_followers(table.drop_last(), leader, project_id);
        let e = table.last();
        if edge_key_is(e, leader, project_id) {
            prev.push(e.follower_id->0)
        } else {
            prev
        }
    }
}

/// A follower table holds complete edges only.
pub open spec fn table_complete(table: Seq<FollowerEdge>) -> bool {
    forall|k: int| 0 <= k < table.len() ==> (#[trigger] table[k]).leader_id is Some && table[k].follower_id is Some
}

/// The follower table that a snapshot's edges describe, under every key.
pub open spec fn table_matches(table: Seq<FollowerEdge>, edges: Seq<FollowerEdge>) -> bool {
    &&& table_complete(table)
    &&& forall|l: PeerId, p: Option<u64>| #[trigger] table_followers(table, l, p) == followers_of(edges, l, p)
}

pub fn build_follower_table(edges: &Vec<FollowerEdge>) -> (table: Vec<FollowerEdge>)
    ensures
        table_matches(table@, edges@),
{
    let mut table: Vec<FollowerEdge> = Vec::new();
    let mut i: usize = 0;
    while i < edges.len()
        invariant
            i <= edges@.len(),
            table_matches(table@, edges@.subrange(0, i as int)),
        decreases edges@.len() - i,
    {
        let e = edges[i];
        let ghost pre = edges@.subrange(0, i as int);
        let ghost post = edges@.subrange(0, i + 1);
        assert(post.drop_last() == pre);
        assert(post.last() == e);
        match (e.leader_id, e.follower_id) {
            (Some(leader), Some(follower)) => {
                let listed = table_lists(&table, leader, e.project_id, follower);
                if !listed {
                    let ghost prev = table@;
                    table.push(e);
                    proof {
                        assert(table@.drop_last() == prev);
                        assert forall|l: PeerId, p: Option<u64>| #[trigger] table_followers(table@, l, p)
                            == followers_of(post, l, p) by {
                            assert(table_followers(prev, l, p) == followers_of(pre, l, p));
                        }
                    }
                } else {
                    proof {
                        assert forall|l: PeerId, p: Option<u64>| #[trigger] table_followers(table@, l, p)
                            == followers_of(post, l, p) by {
                            assert(table_followers(table@, l, p) == followers_of(pre, l, p));
                        }
                    }
                }
            },
            _ => {
                proof {
                    assert forall|l: PeerId, p: Option<u64>| #[trigger] table_followers(table@, l, p)
                        == followers_of(post, l, p) by {
                        assert(table_followers(table@, l, p) == followers_of(pre, l, p));
                    }
                }
            },
        }
        i = i + 1;
    }
    assert(edges@.subrange(0, edges@.len() as int) == edges@);
    table
}

/// Whether `follower` is listed under the key in the table.
fn table_lists(table: &Vec<FollowerEdge>, leader: PeerId, project_id: Option<u64>, follower: PeerId) -> (r: bool)
    requires
        table_complete(table@),
    ensures
        r == table_followers(table@, leader, project_id).contains(follower),
{
    let ghost key_list = table_followers(table@, leader, project_id);
    let mut i: usize = table.len();
    assert(table@.subrange(0, i as int) == table@);
    while i > 0
        invariant
            i <= table@.len(),
            table_complete(table@),
            key_list == table_followers(table@, leader, project_id),
            key_list.contains(follower) <==> table_followers(table@.subrange(0, i as int), leader, project_id).contains(follower),
        decreases i,
    {
        let e = table[i - 1];
        let ghost sub = table@.subrange(0, i as int);
        assert(sub.drop_last() == table@.subrange(0, i - 1));
        assert(sub.last() == e);
        if e.leader_id == Some(leader) && e.project_id == project_id && e.follower_id == Some(follower) {
            assert(table_followers(sub, leader, project_id).last() == follower);
            assert(table_followers(sub, leader, project_id).contains(follower));
            return true;
        }
        proof {
            let a = table_followers(sub.drop_last(), leader, project_id);
            if edge_key_is(e, leader, project_id) {
                assert(table_followers(sub, leader, project_id) == a.push(e.follower_id->0));
                assert(a.push(e.follower_id->0).contains(follower) ==> a.contains(follower)) by {
                    if a.push(e.follower_id->0).contains(follower) {
                        let k = choose|k: int| 0 <= k < a.len() + 1 && a.push(e.follower_id->0)[k] == follower;
                        if k < a.len() {
                            assert(a[k] == follower);
                        }
                    }
                }
                assert(a.contains(follower) ==> a.push(e.follower_id->0).contains(follower)) by {
                    if a.contains(follower) {
                        let k = choose|k: int| 0 <= k < a.len() && a[k] == follower;
                        assert(a.push(e.follower_id->0)[k] == follower);
                    }
                }
            }
        }
        i = i - 1;
    }
    assert(table@.subrange(0, 0) =~= Seq::<FollowerEdge>::empty());
    false
}

/// The followers listed under one key of a follower table.
pub fn table_followers_of(table: &Vec<FollowerEdge>, leader: PeerId, project_id: Option<u64>) -> (r: Vec<PeerId>)
    requires
        table_complete(table@),
    ensures
        r@ == table_followers(table@, leader, project_id),
{
    let mut r: Vec<PeerId> = Vec::new();
    let mut i: usize = 0;
    while i < table.len()
        invariant
            i <= table@.len(),
            table_complete(table@),
            r@ == table_followers(table@.subrange(0, i as int), leader, project_id),
        decreases table@.len() - i,
    {
        let e = table[i];
        let ghost sub = table@.subrange(0, i + 1);
        assert(sub.drop_last() == table@.subrange(0, i as int));
        assert(sub.last() == e);
        if e.leader_id == Some(leader) && e.project_id == project_id {
            match e.follower_id {
                Some(f) => r.push(f),
                None => {},
            }
        }
        i = i + 1;
    }
    assert(table@.subrange(0, table@.len() as int) == table@);
    r
}

} // verus!
