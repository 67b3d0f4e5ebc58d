use call::{
    CallRequest, Effect, Event, FollowerEdge, ParticipantLocation, ParticipantProject,
    ParticipantState, PeerId, ProjectHandle, ProjectInfo, Room, RoomError, RoomSnapshot,
    RoomStatus, Sound, User,
};

const LOCAL: u64 = 1;

fn peer(id: u32) -> PeerId {
    PeerId { owner_id: 0, id }
}

fn user(id: u64) -> User {
    User { id, github_login: format!("user{}", id) }
}

fn project(id: u64, root: &str) -> ParticipantProject {
    ParticipantProject { id, worktree_root_names: vec![root.to_string()] }
}

fn entry(user_id: u64, projects: Vec<ParticipantProject>, location: Option<ParticipantLocation>) -> ParticipantState {
    ParticipantState { user_id, peer_id: Some(peer(user_id as u32)), projects, location }
}

fn snapshot(participants: Vec<ParticipantState>, pending: Vec<u64>, followers: Vec<FollowerEdge>) -> RoomSnapshot {
    RoomSnapshot { id: 7, participants, pending_participant_ids: pending, followers }
}

/// Applies a snapshot and answers its identity request as a directory would.
fn merge(room: &mut Room, snap: RoomSnapshot) -> bool {
    let req = room.apply_room_update(snap).expect("room is online");
    let remote: Vec<User> = req.participant_user_ids.iter().map(|id| user(*id)).collect();
    let pending: Vec<User> = req.pending_user_ids.iter().map(|id| user(*id)).collect();
    room.complete_room_update(req.update_id, Some(remote), Some(pending), &Vec::new())
}

fn remote_ids(room: &Room) -> Vec<u64> {
    room.remote_participants().iter().map(|p| p.user.id).collect()
}

#[test]
fn room_status_predicates() {
    assert!(RoomStatus::Offline.is_offline());
    assert!(!RoomStatus::Rejoining.is_offline());
    assert!(RoomStatus::Online.is_online());
    assert!(!RoomStatus::Rejoining.is_online());
    assert!(!RoomStatus::Offline.is_online());
}

#[test]
fn created_room_calls_user_and_sees_them_join() {
    let mut room = Room::new(7, None, LOCAL, false);
    let call = room.place_initial_call(42, None);
    assert_eq!(call, Ok(CallRequest { room_id: 7, called_user_id: 42, initial_project_id: None }));
    assert!(merge(
        &mut room,
        snapshot(vec![entry(LOCAL, vec![], None), entry(42, vec![], Some(ParticipantLocation::External))], vec![], vec![]),
    ));
    assert_eq!(remote_ids(&room), vec![42]);
    assert_eq!(room.remote_participants()[0].location, ParticipantLocation::External);
    assert!(!room.call_finished());
    assert_eq!(room.status(), RoomStatus::Online);
}

#[test]
fn repeated_snapshot_emits_nothing() {
    let mut room = Room::new(7, None, LOCAL, false);
    let snap = || {
        snapshot(
            vec![
                entry(42, vec![project(100, "zed")], Some(ParticipantLocation::SharedProject { project_id: 100 })),
                entry(43, vec![], None),
            ],
            vec![44],
            vec![],
        )
    };
    assert!(merge(&mut room, snap()));
    let first = room.take_events();
    assert_eq!(
        first,
        vec![Event::RemoteProjectShared { owner: user(42), project_id: 100, worktree_root_names: vec!["zed".to_string()] }]
    );
    room.take_effects();
    assert!(merge(&mut room, snap()));
    assert_eq!(room.take_events(), Vec::<Event>::new());
    assert_eq!(room.take_effects(), Vec::<Effect>::new());
    assert_eq!(remote_ids(&room), vec![42, 43]);
}

#[test]
fn roster_changes_emit_project_and_location_events() {
    let mut room = Room::new(7, None, LOCAL, false);
    assert!(merge(&mut room, snapshot(vec![entry(42, vec![project(100, "a"), project(101, "b")], None)], vec![], vec![])));
    room.take_events();
    assert!(merge(
        &mut room,
        snapshot(vec![entry(42, vec![project(101, "b"), project(102, "c")], Some(ParticipantLocation::UnsharedProject))], vec![], vec![]),
    ));
    assert_eq!(
        room.take_events(),
        vec![
            Event::RemoteProjectShared { owner: user(42), project_id: 102, worktree_root_names: vec!["c".to_string()] },
            Event::RemoteProjectUnshared { project_id: 100 },
            Event::ParticipantLocationChanged { participant_id: peer(42) },
        ]
    );
    assert!(merge(&mut room, snapshot(vec![], vec![], vec![])));
    assert_eq!(
        room.take_events(),
        vec![Event::RemoteProjectUnshared { project_id: 101 }, Event::RemoteProjectUnshared { project_id: 102 }]
    );
    assert!(room.remote_participants().is_empty());
}

#[test]
fn participant_accounting_excludes_local_and_duplicates() {
    let mut room = Room::new(7, None, LOCAL, false);
    let snap = snapshot(
        vec![entry(LOCAL, vec![project(5, "mine")], None), entry(43, vec![], None), entry(42, vec![], None), entry(42, vec![], None)],
        vec![42, 44, 44, LOCAL, 45],
        vec![],
    );
    assert!(merge(&mut room, snap));
    assert_eq!(remote_ids(&room), vec![42, 43]);
    let pending: Vec<u64> = room.pending_participants().iter().map(|u| u.id).collect();
    assert_eq!(pending, vec![44, 45]);
    for id in [42, 43, 44, 45] {
        assert!(room.contains_participant(id));
    }
    assert!(!room.contains_participant(LOCAL));
    assert_eq!(room.local_participant().projects, vec![project(5, "mine")]);
}

#[test]
fn entries_without_peer_or_with_mismatched_identity_are_skipped() {
    let mut room = Room::new(7, None, LOCAL, false);
    let mut no_peer = entry(50, vec![], None);
    no_peer.peer_id = None;
    let req = room
        .apply_room_update(snapshot(vec![no_peer, entry(51, vec![], None), entry(52, vec![], None)], vec![], vec![]))
        .unwrap();
    assert_eq!(req.participant_user_ids, vec![50, 51, 52]);
    // The directory answers 51's slot with someone else and has no answer for 52.
    assert!(room.complete_room_update(req.update_id, Some(vec![user(50), user(60)]), Some(vec![]), &Vec::new()));
    assert!(room.remote_participants().is_empty());
    assert!(!room.contains_participant(50));
}

#[test]
fn failed_identity_resolution_keeps_roster() {
    let mut room = Room::new(7, None, LOCAL, false);
    assert!(merge(&mut room, snapshot(vec![entry(42, vec![], None)], vec![44], vec![])));
    let req = room.apply_room_update(snapshot(vec![entry(43, vec![], None)], vec![42], vec![])).unwrap();
    assert!(room.complete_room_update(req.update_id, None, None, &Vec::new()));
    assert_eq!(remote_ids(&room), vec![42]);
    let pending: Vec<u64> = room.pending_participants().iter().map(|u| u.id).collect();
    assert_eq!(pending, vec![44]);
}

#[test]
fn superseded_room_update_is_ignored() {
    let mut room = Room::new(7, None, LOCAL, false);
    let first = room.apply_room_update(snapshot(vec![entry(42, vec![], None)], vec![], vec![])).unwrap();
    let second = room.apply_room_update(snapshot(vec![entry(43, vec![], None)], vec![], vec![])).unwrap();
    assert_eq!(first.update_id, 0);
    assert_eq!(second.update_id, 1);
    assert!(!room.complete_room_update(first.update_id, Some(vec![user(42)]), Some(vec![]), &Vec::new()));
    assert!(room.remote_participants().is_empty());
    assert!(room.complete_room_update(second.update_id, Some(vec![user(43)]), Some(vec![]), &Vec::new()));
    assert_eq!(remote_ids(&room), vec![43]);
}

#[test]
fn leave_twice_fails_the_second_time() {
    let mut room = Room::new(7, None, LOCAL, false);
    assert!(merge(&mut room, snapshot(vec![entry(42, vec![], None)], vec![], vec![])));
    room.take_events();
    room.take_effects();
    assert_eq!(room.leave(), Ok(()));
    assert_eq!(room.status(), RoomStatus::Offline);
    assert_eq!(room.take_events(), vec![Event::Left]);
    assert_eq!(room.take_effects(), vec![Effect::PlaySound { sound: Sound::Leave }, Effect::SendLeaveRoom]);
    assert_eq!(room.leave(), Err(RoomError::Offline));
    assert_eq!(room.take_events(), Vec::<Event>::new());
    assert_eq!(room.take_effects(), Vec::<Effect>::new());
    assert_eq!(room.status(), RoomStatus::Offline);
}

#[test]
fn room_leaves_when_last_participant_leaves() {
    let (mut room, req) = Room::from_join_response(7, None, LOCAL, false, snapshot(vec![entry(42, vec![project(9, "x")], None)], vec![], vec![]));
    assert!(room.complete_room_update(req.update_id, Some(vec![user(42)]), Some(vec![]), &Vec::new()));
    assert_eq!(room.status(), RoomStatus::Online);
    room.take_events();
    assert!(merge(&mut room, snapshot(vec![], vec![], vec![])));
    assert_eq!(room.status(), RoomStatus::Offline);
    assert_eq!(room.take_events(), vec![Event::RemoteProjectUnshared { project_id: 9 }, Event::Left]);
}

#[test]
fn channel_room_stays_when_empty() {
    let (mut room, req) = Room::from_join_response(7, Some(3), LOCAL, false, snapshot(vec![], vec![], vec![]));
    assert!(room.complete_room_update(req.update_id, Some(vec![]), Some(vec![]), &Vec::new()));
    assert_eq!(room.status(), RoomStatus::Online);
    assert_eq!(room.channel_id(), Some(3));
}

#[test]
fn pending_call_keeps_empty_room_until_it_finishes() {
    let mut room = Room::new(7, None, LOCAL, false);
    assert!(room.place_initial_call(42, Some(5)).is_ok());
    assert!(merge(&mut room, snapshot(vec![], vec![], vec![])));
    assert_eq!(room.status(), RoomStatus::Online);
    assert!(room.call_finished());
    assert_eq!(room.status(), RoomStatus::Offline);
    assert_eq!(room.call(43, None), Err(RoomError::Offline));
}

#[test]
fn followers_are_grouped_and_deduplicated() {
    let mut room = Room::new(7, None, LOCAL, false);
    let edge = |leader: Option<u32>, follower: Option<u32>, project_id: Option<u64>| FollowerEdge {
        leader_id: leader.map(peer),
        follower_id: follower.map(peer),
        project_id,
    };
    let followers = vec![
        edge(Some(1), Some(2), Some(10)),
        edge(Some(1), Some(3), Some(10)),
        edge(Some(1), Some(2), Some(10)),
        edge(None, Some(4), Some(10)),
        edge(Some(1), None, Some(10)),
        edge(Some(1), Some(5), Some(11)),
        edge(Some(1), Some(6), None),
    ];
    assert!(merge(&mut room, snapshot(vec![entry(42, vec![], None)], vec![], followers)));
    assert_eq!(room.followers_for(peer(1), 10), vec![peer(2), peer(3)]);
    assert_eq!(room.followers_for(peer(1), 11), vec![peer(5)]);
    assert_eq!(room.followers_for(peer(2), 10), Vec::<PeerId>::new());
}

#[test]
fn remote_participant_lookup_by_peer() {
    let mut room = Room::new(7, None, LOCAL, false);
    assert!(merge(&mut room, snapshot(vec![entry(42, vec![], None), entry(43, vec![], None)], vec![], vec![])));
    assert_eq!(room.remote_participant_for_peer_id(peer(43)).map(|p| p.user.id), Some(43));
    assert!(room.remote_participant_for_peer_id(peer(99)).is_none());
}

#[test]
fn new_participant_plays_chime_and_hydrates_tracks_with_media() {
    let mut room = Room::new(7, None, LOCAL, true);
    assert_eq!(room.take_effects(), vec![Effect::PlaySound { sound: Sound::Joined }]);
    assert!(merge(&mut room, snapshot(vec![entry(42, vec![], None)], vec![], vec![])));
    assert_eq!(
        room.take_effects(),
        vec![Effect::PlaySound { sound: Sound::Joined }, Effect::HydrateTracks { user_id: 42 }]
    );
    let p = &room.remote_participants()[0];
    assert!(p.muted);
    assert!(!p.speaking);
}

#[test]
fn unshared_project_disconnects_joined_copy() {
    let mut room = Room::new(7, None, LOCAL, false);
    assert!(merge(&mut room, snapshot(vec![entry(42, vec![project(100, "a"), project(101, "b")], None)], vec![], vec![])));
    let h1 = ProjectHandle { id: 1 };
    let h2 = ProjectHandle { id: 2 };
    let h3 = ProjectHandle { id: 3 };
    let registry = vec![
        ProjectInfo { handle: h1, remote_id: Some(100), read_only: false },
        ProjectInfo { handle: h2, remote_id: Some(101), read_only: false },
        ProjectInfo { handle: h3, remote_id: Some(300), read_only: false },
    ];
    for h in [h1, h2, h3] {
        assert_eq!(room.project_joined(h, &registry), Ok(()));
    }
    room.take_effects();
    let req = room.apply_room_update(snapshot(vec![entry(42, vec![project(101, "b")], None)], vec![], vec![])).unwrap();
    assert!(room.complete_room_update(req.update_id, Some(vec![user(42)]), Some(vec![]), &registry));
    assert_eq!(room.joined_projects(), &vec![h2, h3]);
    assert_eq!(room.take_effects(), vec![Effect::DisconnectJoinedProject { project: h1 }]);
}

#[test]
fn offline_room_rejects_snapshots() {
    let mut room = Room::new(7, None, LOCAL, false);
    room.leave().unwrap();
    assert_eq!(room.apply_room_update(snapshot(vec![], vec![], vec![])), Err(RoomError::Offline));
}
