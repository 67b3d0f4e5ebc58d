use call::room::RejoinResponse;
use call::{
    ConnectionStatus, Effect, LocationUpdate, RejoinRequest, Sound, ParticipantLocation, ParticipantState, PeerId, ProjectHandle,
    ProjectInfo, ProjectRef, ReconnectSupervisor, Room, RoomError, RoomSnapshot, RoomStatus,
    ShareProjectStart, SupervisorAction, SupervisorPhase, User,
};

const LOCAL: u64 = 1;

fn empty_snapshot() -> RoomSnapshot {
    RoomSnapshot { id: 7, participants: vec![], pending_participant_ids: vec![], followers: vec![] }
}

#[test]
fn three_failed_rejoins_force_the_room_offline() {
    let mut room = Room::new(7, None, LOCAL, false);
    let (mut sup, action) = ReconnectSupervisor::new(ConnectionStatus::Connected);
    assert_eq!(action, SupervisorAction::Wait);
    assert_eq!(sup.on_status(ConnectionStatus::Disconnected), SupervisorAction::BeginRejoining { attempt_now: false });
    room.begin_rejoining();
    assert_eq!(room.status(), RoomStatus::Rejoining);
    for attempt in 0..3 {
        assert_eq!(sup.on_status(ConnectionStatus::Connected), SupervisorAction::AttemptRejoin);
        let expected = if attempt < 2 { SupervisorAction::Wait } else { SupervisorAction::GiveUp };
        assert_eq!(sup.on_rejoin_result(false), expected);
        if attempt < 2 {
            assert_eq!(sup.on_status(ConnectionStatus::Disconnected), SupervisorAction::Wait);
        }
    }
    assert_eq!(sup.phase, SupervisorPhase::Finished);
    assert_eq!(sup.on_status(ConnectionStatus::Connected), SupervisorAction::Wait);
    assert_eq!(room.leave(), Ok(()));
    assert!(room.remote_participants().is_empty());
    assert_eq!(room.status(), RoomStatus::Offline);
    assert_eq!(
        RoomError::ReconnectExhausted.message(),
        "can't reconnect to room: client failed to re-establish connection".to_string()
    );
}

#[test]
fn successful_rejoin_returns_to_watching() {
    let (mut sup, action) = ReconnectSupervisor::new(ConnectionStatus::Disconnected);
    assert_eq!(action, SupervisorAction::BeginRejoining { attempt_now: false });
    assert_eq!(sup.on_status(ConnectionStatus::Connected), SupervisorAction::AttemptRejoin);
    assert_eq!(sup.on_status(ConnectionStatus::Connected), SupervisorAction::Wait);
    assert_eq!(sup.on_rejoin_result(true), SupervisorAction::Reconnected);
    assert_eq!(sup.phase, SupervisorPhase::Watching);
    assert_eq!(sup.on_status(ConnectionStatus::Connected), SupervisorAction::BeginRejoining { attempt_now: true });
    assert_eq!(sup.remaining_attempts, 3);
}

#[test]
fn timeout_and_sign_out_give_up() {
    let (mut sup, _) = ReconnectSupervisor::new(ConnectionStatus::Disconnected);
    assert_eq!(sup.on_timeout(), SupervisorAction::GiveUp);
    assert_eq!(sup.on_status(ConnectionStatus::Connected), SupervisorAction::Wait);
    let (mut other, _) = ReconnectSupervisor::new(ConnectionStatus::Connected);
    assert_eq!(other.on_timeout(), SupervisorAction::Wait);
    assert_eq!(other.on_status(ConnectionStatus::SignedOut), SupervisorAction::BeginRejoiningThenGiveUp);
}

#[test]
fn sign_out_marks_rejoining_before_giving_up() {
    let (_, action) = ReconnectSupervisor::new(ConnectionStatus::SignedOut);
    assert_eq!(action, SupervisorAction::BeginRejoiningThenGiveUp);
    let (mut sup, _) = ReconnectSupervisor::new(ConnectionStatus::Disconnected);
    assert_eq!(sup.on_status(ConnectionStatus::SignedOut), SupervisorAction::GiveUp);
    let (mut back, _) = ReconnectSupervisor::new(ConnectionStatus::Connected);
    assert_eq!(back.on_status(ConnectionStatus::Connected), SupervisorAction::BeginRejoining { attempt_now: true });
    assert_eq!(back.on_status(ConnectionStatus::SignedOut), SupervisorAction::Wait);
    assert_eq!(back.on_rejoin_result(true), SupervisorAction::BeginRejoiningThenGiveUp);
}

#[test]
fn failure_after_status_change_retries_at_once() {
    let (mut sup, _) = ReconnectSupervisor::new(ConnectionStatus::Disconnected);
    assert_eq!(sup.on_status(ConnectionStatus::Connected), SupervisorAction::AttemptRejoin);
    assert_eq!(sup.on_status(ConnectionStatus::Connected), SupervisorAction::Wait);
    assert_eq!(sup.on_rejoin_result(false), SupervisorAction::AttemptRejoin);
    assert_eq!(sup.remaining_attempts, 2);
}

#[test]
fn sharing_the_active_project_updates_location() {
    let mut room = Room::new(7, None, LOCAL, false);
    let h = ProjectHandle { id: 3 };
    assert_eq!(
        room.set_location(Some(h), None),
        Ok(LocationUpdate { room_id: 7, location: ParticipantLocation::UnsharedProject })
    );
    assert_eq!(room.share_project(None), ShareProjectStart::Request { room_id: 7 });
    assert_eq!(
        room.project_shared(h, 99),
        Ok(Some(LocationUpdate { room_id: 7, location: ParticipantLocation::SharedProject { project_id: 99 } }))
    );
    assert_eq!(room.shared_projects(), &vec![h]);
    assert_eq!(room.share_project(Some(99)), ShareProjectStart::AlreadyShared { project_id: 99 });
    assert_eq!(room.project_shared(ProjectHandle { id: 4 }, 100), Ok(None));
    assert_eq!(room.set_location(None, None), Ok(LocationUpdate { room_id: 7, location: ParticipantLocation::External }));
    assert_eq!(room.local_participant().active_project, None);
}

#[test]
fn joining_a_project_forgets_closed_and_read_only_ones() {
    let mut room = Room::new(7, None, LOCAL, false);
    let (a, b, c) = (ProjectHandle { id: 1 }, ProjectHandle { id: 2 }, ProjectHandle { id: 3 });
    let registry = vec![
        ProjectInfo { handle: a, remote_id: Some(10), read_only: false },
        ProjectInfo { handle: b, remote_id: Some(11), read_only: false },
        ProjectInfo { handle: c, remote_id: Some(12), read_only: false },
    ];
    room.project_joined(a, &registry).unwrap();
    room.project_joined(b, &registry).unwrap();
    let later = vec![
        ProjectInfo { handle: b, remote_id: Some(11), read_only: true },
        ProjectInfo { handle: c, remote_id: Some(12), read_only: false },
    ];
    room.project_joined(c, &later).unwrap();
    assert_eq!(room.joined_projects(), &vec![c]);
}

#[test]
fn rejoin_reshares_and_rejoins_open_projects() {
    let mut room = Room::new(7, None, LOCAL, false);
    let (a, b, c, d) = (ProjectHandle { id: 1 }, ProjectHandle { id: 2 }, ProjectHandle { id: 3 }, ProjectHandle { id: 4 });
    room.project_shared(a, 10).unwrap();
    room.project_shared(b, 11).unwrap();
    let all = vec![
        ProjectInfo { handle: c, remote_id: Some(12), read_only: false },
        ProjectInfo { handle: d, remote_id: None, read_only: false },
    ];
    room.project_joined(c, &all).unwrap();
    room.project_joined(d, &all).unwrap();
    room.begin_rejoining();
    let registry = vec![
        ProjectInfo { handle: a, remote_id: Some(10), read_only: false },
        ProjectInfo { handle: c, remote_id: Some(12), read_only: false },
        ProjectInfo { handle: d, remote_id: None, read_only: false },
    ];
    let req = room.prepare_rejoin(&registry);
    assert_eq!(req.room_id, 7);
    assert_eq!(req.reshared, vec![ProjectRef { project: a, project_id: 10 }]);
    assert_eq!(req.rejoined, vec![ProjectRef { project: c, project_id: 12 }]);
    assert_eq!(room.shared_projects(), &vec![a]);
    assert_eq!(room.joined_projects(), &vec![c, d]);
    room.take_effects();
    let response = RejoinResponse {
        room: Some(empty_snapshot()),
        message_id: 31,
        reshared_ids: vec![10, 55],
        rejoined_ids: vec![12],
    };
    let roster = room.complete_rejoin(&req, response).unwrap();
    assert_eq!(room.status(), RoomStatus::Online);
    assert_eq!(
        room.take_effects(),
        vec![
            call::Effect::ProjectReshared { project: a },
            call::Effect::ProjectRejoined { project: c, message_id: 31 },
        ]
    );
    assert!(room.complete_room_update(roster.update_id, Some(vec![]), Some(vec![]), &registry));
}

#[test]
fn leaving_unshares_and_closes_projects() {
    let mut room = Room::new(7, None, LOCAL, false);
    let (a, c) = (ProjectHandle { id: 1 }, ProjectHandle { id: 3 });
    room.project_shared(a, 10).unwrap();
    let reg = vec![ProjectInfo { handle: c, remote_id: Some(12), read_only: false }];
    room.project_joined(c, &reg).unwrap();
    room.take_effects();
    room.leave().unwrap();
    assert_eq!(
        room.take_effects(),
        vec![
            call::Effect::PlaySound { sound: call::Sound::Leave },
            call::Effect::UnshareProject { project: a },
            call::Effect::CloseJoinedProject { project: c },
            call::Effect::SendLeaveRoom,
        ]
    );
    assert!(room.shared_projects().is_empty());
    assert_eq!(room.project_shared(a, 10), Err(RoomError::Offline));
    let empty = RejoinRequest { room_id: 7, reshared: vec![], rejoined: vec![] };
    let response = RejoinResponse { room: Some(empty_snapshot()), message_id: 0, reshared_ids: vec![], rejoined_ids: vec![] };
    assert_eq!(room.complete_rejoin(&empty, response), Err(RoomError::Offline));
}

#[test]
fn release_leaves_only_online_rooms() {
    let mut room = Room::new(7, None, LOCAL, false);
    room.begin_rejoining();
    room.release();
    assert_eq!(room.status(), RoomStatus::Rejoining);
    let mut online = Room::new(8, None, LOCAL, false);
    assert!(online.app_will_quit());
    assert_eq!(online.status(), RoomStatus::Offline);
    assert!(online.take_events().is_empty());
    assert!(!online.app_will_quit());
}

#[test]
fn mute_on_join_follows_setting_or_impersonation() {
    assert!(!Room::mute_on_join(false, false));
    assert!(Room::mute_on_join(true, false));
    assert!(Room::mute_on_join(false, true));
}

#[test]
fn join_response_room_merges_its_snapshot() {
    let snap = RoomSnapshot {
        id: 9,
        participants: vec![ParticipantState {
            user_id: 42,
            peer_id: Some(PeerId { owner_id: 1, id: 2 }),
            projects: vec![],
            location: None,
        }],
        pending_participant_ids: vec![43],
        followers: vec![],
    };
    let (mut room, req) = Room::from_join_response(9, None, LOCAL, false, snap);
    assert_eq!(room.id(), 9);
    assert_eq!(req.participant_user_ids, vec![42]);
    assert_eq!(req.pending_user_ids, vec![43]);
    let users = vec![User { id: 42, github_login: "a".to_string() }];
    let pending = vec![User { id: 43, github_login: "b".to_string() }];
    assert!(room.complete_room_update(req.update_id, Some(users), Some(pending), &Vec::new()));
    assert_eq!(room.remote_participants()[0].location, ParticipantLocation::External);
    assert!(room.contains_participant(43));
}

#[test]
fn rejoin_answer_without_room_changes_nothing() {
    let mut room = Room::new(7, None, LOCAL, false);
    room.begin_rejoining();
    let req = room.prepare_rejoin(&vec![]);
    let response = RejoinResponse { room: None, message_id: 1, reshared_ids: vec![], rejoined_ids: vec![] };
    assert_eq!(room.complete_rejoin(&req, response), Err(RoomError::InvalidRoom));
    assert_eq!(room.status(), RoomStatus::Rejoining);
    assert_eq!(RoomError::InvalidRoom.message(), "invalid room".to_string());
}

#[test]
fn error_messages() {
    assert_eq!(RoomError::Offline.message(), "room is offline".to_string());
    assert_eq!(RoomError::MediaNotStarted.message(), "live-kit was not initialized".to_string());
    assert!(RoomError::ReconnectExhausted.message().contains("client failed to re-establish connection"));
}

#[test]
fn join_response_room_starts_fresh() {
    let (mut room, req) = Room::from_join_response(9, Some(4), LOCAL, true, empty_snapshot());
    assert_eq!(req.update_id, 0);
    assert_eq!(room.take_effects(), vec![Effect::PlaySound { sound: Sound::Joined }]);
    assert!(room.take_events().is_empty());
    assert!(room.shared_projects().is_empty());
    assert!(room.joined_projects().is_empty());
    assert_eq!(room.is_deafened(), Some(false));
    let next = room.apply_room_update(empty_snapshot()).unwrap();
    assert_eq!(next.update_id, 1);
}
