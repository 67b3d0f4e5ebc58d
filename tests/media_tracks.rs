use call::{
    parse_user_id, AudioTrackUpdate, Effect, Event, LocalTrack, MediaSession, ParticipantState,
    PeerId, Room, RoomError, RoomSnapshot, Sound, TrackKind, User, VideoTrackUpdate,
};

const LOCAL: u64 = 1;

fn peer(id: u32) -> PeerId {
    PeerId { owner_id: 0, id }
}

fn media_room_with(ids: &[u64]) -> Room {
    let mut room = Room::new(7, None, LOCAL, true);
    let participants = ids
        .iter()
        .map(|id| ParticipantState { user_id: *id, peer_id: Some(peer(*id as u32)), projects: vec![], location: None })
        .collect();
    let req = room
        .apply_room_update(RoomSnapshot { id: 7, participants, pending_participant_ids: vec![], followers: vec![] })
        .unwrap();
    let users = ids.iter().map(|id| User { id: *id, github_login: String::new() }).collect();
    assert!(room.complete_room_update(req.update_id, Some(users), Some(vec![]), &Vec::new()));
    room.take_events();
    room.take_effects();
    room
}

fn published_mic(room: &mut Room) {
    let id = room.share_microphone().unwrap();
    assert_eq!(room.publish_finished(TrackKind::Microphone, id, Ok(5)), Ok(()));
    room.take_effects();
}

#[test]
fn superseded_screen_publish_is_withdrawn() {
    let mut room = media_room_with(&[]);
    let id = room.share_screen().unwrap();
    assert!(room.is_screen_sharing());
    assert_eq!(room.unshare_screen(), Ok(()));
    assert!(!room.is_screen_sharing());
    assert_eq!(room.publish_finished(TrackKind::Screen, id, Ok(77)), Ok(()));
    assert!(!room.is_screen_sharing());
    assert_eq!(room.take_effects(), vec![Effect::UnpublishTrack { publication: 77 }]);
}

#[test]
fn superseded_failure_is_silent() {
    let mut session = MediaSession::new();
    let stale = session.begin_publish(TrackKind::Microphone);
    let current = session.begin_publish(TrackKind::Microphone);
    assert_eq!((stale, current), (0, 1));
    let mut effects = Vec::new();
    assert_eq!(session.finish_publish(TrackKind::Microphone, stale, Err(()), &mut effects), Ok(()));
    assert_eq!(session.microphone_track, LocalTrack::Pending { publish_id: 1, muted: false });
    assert_eq!(session.finish_publish(TrackKind::Microphone, stale, Ok(3), &mut effects), Ok(()));
    assert_eq!(effects, vec![Effect::UnpublishTrack { publication: 3 }]);
}

#[test]
fn publish_failure_reverts_track() {
    let mut room = media_room_with(&[]);
    let id = room.share_microphone().unwrap();
    assert_eq!(room.publish_finished(TrackKind::Microphone, id, Err(())), Err(RoomError::EngineFailure));
    assert!(!room.is_sharing_mic());
}

#[test]
fn mute_requested_while_pending_is_applied_on_publish() {
    let mut room = media_room_with(&[]);
    let id = room.share_microphone().unwrap();
    assert_eq!(room.toggle_mute(false), Ok(None));
    assert!(room.is_muted(false));
    room.take_effects();
    assert_eq!(room.publish_finished(TrackKind::Microphone, id, Ok(9)), Ok(()));
    assert_eq!(room.take_effects(), vec![Effect::SetTrackMuted { publication: 9, muted: true }]);
    assert!(room.is_muted(false));
}

#[test]
fn deafen_mutes_and_undeafen_restores() {
    let mut room = media_room_with(&[42]);
    published_mic(&mut room);
    assert!(!room.is_muted(false));
    assert_eq!(room.toggle_deafen(), Ok(()));
    assert_eq!(room.is_deafened(), Some(true));
    assert!(room.is_muted(false));
    assert_eq!(
        room.take_effects(),
        vec![
            Effect::SetTrackMuted { publication: 5, muted: true },
            Effect::PlaySound { sound: Sound::Mute },
            Effect::SetRemoteAudioEnabled { user_id: 42, enabled: false },
        ]
    );
    assert_eq!(room.toggle_deafen(), Ok(()));
    assert_eq!(room.is_deafened(), Some(false));
    assert!(!room.is_muted(false));
}

#[test]
fn undeafen_keeps_manual_mute() {
    let mut room = media_room_with(&[]);
    published_mic(&mut room);
    assert_eq!(room.toggle_mute(false), Ok(None));
    assert!(room.is_muted(false));
    assert_eq!(room.toggle_deafen(), Ok(()));
    assert_eq!(room.toggle_deafen(), Ok(()));
    assert_eq!(room.is_deafened(), Some(false));
    assert!(room.is_muted(false));
}

#[test]
fn unmuting_while_deafened_undeafens() {
    let mut room = media_room_with(&[]);
    published_mic(&mut room);
    assert_eq!(room.toggle_deafen(), Ok(()));
    assert_eq!(room.toggle_mute(false), Ok(None));
    assert!(!room.is_muted(false));
    assert_eq!(room.is_deafened(), Some(false));
}

#[test]
fn toggle_mute_without_track_starts_publishing() {
    let mut room = media_room_with(&[]);
    assert!(room.is_muted(true));
    assert!(!room.is_muted(false));
    assert_eq!(room.toggle_mute(false), Ok(Some(0)));
    assert!(room.is_sharing_mic());
}

#[test]
fn media_errors() {
    let mut plain = Room::new(7, None, LOCAL, false);
    assert_eq!(plain.share_microphone(), Err(RoomError::MediaNotStarted));
    assert_eq!(plain.toggle_deafen(), Err(RoomError::MediaNotStarted));
    assert_eq!(plain.toggle_mute(false), Err(RoomError::MediaNotStarted));
    assert_eq!(plain.unshare_screen(), Err(RoomError::MediaNotStarted));
    assert_eq!(plain.is_deafened(), None);
    let mut room = media_room_with(&[]);
    assert_eq!(room.unshare_screen(), Err(RoomError::NotShared));
    assert_eq!(room.toggle_deafen(), Err(RoomError::NotShared));
    assert_eq!(room.is_deafened(), Some(false));
    room.share_screen().unwrap();
    assert_eq!(room.share_screen(), Err(RoomError::AlreadyInProgress));
    room.leave().unwrap();
    assert_eq!(room.share_microphone(), Err(RoomError::Offline));
    assert_eq!(room.unshare_screen(), Err(RoomError::Offline));
    assert_eq!(room.publish_finished(TrackKind::Screen, 0, Ok(1)), Err(RoomError::MediaNotStarted));
}

#[test]
fn unshare_published_screen() {
    let mut room = media_room_with(&[]);
    let id = room.share_screen().unwrap();
    room.publish_finished(TrackKind::Screen, id, Ok(11)).unwrap();
    assert_eq!(room.take_effects(), vec![Effect::PlaySound { sound: Sound::StartScreenshare }]);
    assert_eq!(room.unshare_screen(), Ok(()));
    assert_eq!(
        room.take_effects(),
        vec![Effect::UnpublishTrack { publication: 11 }, Effect::PlaySound { sound: Sound::StopScreenshare }]
    );
}

#[test]
fn media_disconnect_leaves_room() {
    let mut room = media_room_with(&[]);
    assert!(!room.media_status_changed(true));
    assert!(room.is_connected());
    assert!(room.media_status_changed(false));
    assert!(!room.is_connected());
    assert!(room.status().is_offline());
}

#[test]
fn video_subscriptions_follow_updates() {
    let mut room = media_room_with(&[42]);
    let sub = VideoTrackUpdate::Subscribed { publisher_id: "42".to_string(), track_id: "TR_1".to_string() };
    assert_eq!(room.remote_video_track_updated(sub.clone()), Ok(()));
    assert_eq!(room.remote_video_track_updated(sub), Ok(()));
    assert_eq!(room.remote_participants()[0].video_tracks, vec!["TR_1".to_string()]);
    let unsub = VideoTrackUpdate::Unsubscribed { publisher_id: "42".to_string(), track_id: "TR_1".to_string() };
    assert_eq!(room.remote_video_track_updated(unsub), Ok(()));
    assert!(room.remote_participants()[0].video_tracks.is_empty());
    assert_eq!(room.take_events(), vec![Event::RemoteVideoTracksChanged { participant_id: peer(42) }; 3]);
}

#[test]
fn track_updates_for_unknown_publishers_fail() {
    let mut room = media_room_with(&[42]);
    let bad = VideoTrackUpdate::Subscribed { publisher_id: "forty-two".to_string(), track_id: "T".to_string() };
    assert_eq!(room.remote_video_track_updated(bad), Err(RoomError::InvalidPublisher));
    let unknown = AudioTrackUpdate::Unsubscribed { publisher_id: "43".to_string(), track_id: "T".to_string() };
    assert_eq!(room.remote_audio_track_updated(unknown), Err(RoomError::NotFound));
    assert_eq!(room.take_events(), Vec::<Event>::new());
}

#[test]
fn audio_updates_set_mute_and_speaking() {
    let mut room = media_room_with(&[42, 43]);
    let sub = AudioTrackUpdate::Subscribed { publisher_id: "43".to_string(), track_id: "A".to_string(), muted: false };
    assert_eq!(room.remote_audio_track_updated(sub), Ok(()));
    assert!(!room.remote_participants()[1].muted);
    assert_eq!(room.take_events(), vec![Event::RemoteAudioTracksChanged { participant_id: peer(43) }]);
    let mute = AudioTrackUpdate::MuteChanged { track_id: "A".to_string(), muted: true };
    assert_eq!(room.remote_audio_track_updated(mute), Ok(()));
    assert!(room.remote_participants()[1].muted);
    let speakers = AudioTrackUpdate::ActiveSpeakersChanged {
        speakers: vec!["43".to_string(), "x".to_string(), "1".to_string()],
    };
    assert_eq!(room.remote_audio_track_updated(speakers), Ok(()));
    assert!(!room.remote_participants()[0].speaking);
    assert!(room.remote_participants()[1].speaking);
    assert!(room.is_speaking());
}

#[test]
fn publisher_ids_parse_as_decimal_user_ids() {
    assert_eq!(parse_user_id("42"), Some(42));
    assert_eq!(parse_user_id("+7"), Some(7));
    assert_eq!(parse_user_id("007"), Some(7));
    assert_eq!(parse_user_id(""), None);
    assert_eq!(parse_user_id("+"), None);
    assert_eq!(parse_user_id("4a"), None);
    assert_eq!(parse_user_id("-1"), None);
    assert_eq!(parse_user_id("18446744073709551615"), Some(u64::MAX));
    assert_eq!(parse_user_id("18446744073709551616"), None);
}
