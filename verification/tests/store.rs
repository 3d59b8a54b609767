use voice_room::clock::utc_now;
use voice_room::domain::{
    Connection, ConnectionState, Credential, Participant, ParticipantRole, RecordingRoom,
    RecordingSession, RecordingStatus, RoomSession, SegmentRow, SessionRow, TrackSegment,
    TrackSegmentStatus,
};
use voice_room::ids::new_id;
use voice_room::model::StoreError;
use voice_room::room::new_participant;
use voice_room::rows::connection_state_name;
use voice_room::store::{is_schedulable, Store};

const SECOND: i128 = 1_000_000_000;

fn participant(id: u128, nickname: &str, created_at: i128) -> Participant {
    Participant {
        id,
        livekit_identity: format!("p_{:032x}", id),
        nickname: nickname.to_string(),
        role: ParticipantRole::Participant,
        created_at,
        last_seen_at: created_at,
    }
}

fn recording(id: u128, status: RecordingStatus, started_at_utc: i128) -> RecordingSession {
    RecordingSession {
        id,
        status,
        started_at_utc,
        stopped_at_utc: None,
        target_sample_rate: 48_000,
        target_channels: 1,
        target_sample_format: "s16le".to_string(),
        output_dir: "/recordings/x".to_string(),
        version: 1,
    }
}

fn segment(id: u128, recording_id: u128, participant_id: u128, sid: &str) -> TrackSegment {
    TrackSegment {
        id,
        recording_id,
        participant_id,
        livekit_track_sid: sid.to_string(),
        segment_index: 1,
        first_frame_at_ns: 0,
        last_frame_at_ns: Some(5),
        timeline_start_sample: 0,
        sample_count: 9,
        pcm_path: format!("/recordings/x/{sid}.pcm"),
        status: TrackSegmentStatus::Opening,
    }
}

fn room(id: u128) -> RoomSession {
    RoomSession { id, generation: 1, host_participant_id: None }
}

#[test]
fn stale_connection_cannot_override_new_generation() {
    let mut store = Store::new();
    let participant = new_participant("refresh-test", ParticipantRole::Participant);
    store.upsert_participant(&participant);
    let old_generation = new_id();
    let new_generation = new_id();
    store.begin_connection(participant.id, old_generation, utc_now());
    store.begin_connection(participant.id, new_generation, utc_now());

    assert!(!store.mark_connection_reconnecting(
        participant.id,
        old_generation,
        utc_now() + 60 * SECOND,
        utc_now(),
    ));
    assert_eq!(
        store
            .connection_state(participant.id, new_generation)
            .as_ref()
            .map(connection_state_name),
        Some("connecting")
    );
}

#[test]
fn explicit_leave_is_not_downgraded_to_reconnecting() {
    let mut store = Store::new();
    let participant = new_participant("leave-test", ParticipantRole::Participant);
    store.upsert_participant(&participant);
    let generation = new_id();
    store.begin_connection(participant.id, generation, utc_now());
    assert!(store.mark_connection_left(participant.id, generation, utc_now()));
    assert!(!store.mark_connection_reconnecting(
        participant.id,
        generation,
        utc_now() + 60 * SECOND,
        utc_now(),
    ));
    assert_eq!(
        store
            .connection_state(participant.id, generation)
            .as_ref()
            .map(connection_state_name),
        Some("left")
    );
}

#[test]
fn room_session_releases_host_before_next_generation() {
    let mut store = Store::new();
    let first = new_participant("host", ParticipantRole::Host);
    let second = new_participant("other", ParticipantRole::Host);
    store.upsert_participant(&first);
    store.upsert_participant(&second);
    let first_session = store.ensure_active_room_session(new_id(), utc_now()).unwrap();
    assert!(store.claim_session_host(first.id, new_id(), utc_now()).unwrap());
    assert!(!store.claim_session_host(second.id, new_id(), utc_now()).unwrap());
    assert_eq!(store.room_host(), Some(first.id));
    store.close_active_room_session_if_empty(utc_now());
    let second_session = store.ensure_active_room_session(new_id(), utc_now()).unwrap();
    assert_eq!(second_session.generation, first_session.generation + 1);
    assert!(store.claim_session_host(second.id, new_id(), utc_now()).unwrap());
    assert_eq!(store.room_host(), Some(second.id));
}

#[test]
fn room_session_is_not_closed_while_a_participant_is_present() {
    let mut store = Store::new();
    let participant = new_participant("present", ParticipantRole::Participant);
    store.upsert_participant(&participant);
    let session = store.ensure_active_room_session(new_id(), utc_now()).unwrap();
    store.begin_connection(participant.id, new_id(), utc_now());

    assert!(store.close_active_room_session_if_empty(utc_now()).is_none());
    assert_eq!(store.active_room_session().unwrap().id, session.id);
}

#[test]
fn empty_store_holds_nothing() {
    let store = Store::new();
    assert!(store.active_room_session().is_none());
    assert!(store.room_host().is_none());
    assert!(store.active_recording().is_none());
    assert!(store.participant(1).is_none());
    assert!(store.host().is_none());
    assert!(store.room_empty_since().is_none());
    assert!(store.all_participants().is_empty());
    assert!(store.present_participants().is_empty());
    assert!(store.room_sessions().is_empty());
    assert!(store.all_connections().is_empty());
    assert_eq!(store.present_count(), 0);
}

#[test]
fn known_participant_keeps_identity_and_arrival() {
    let mut store = Store::new();
    store.upsert_participant(&participant(7, "first", 10));
    let mut again = participant(7, "second", 99);
    again.livekit_identity = "p_other".to_string();
    again.role = ParticipantRole::Host;
    store.upsert_participant(&again);
    let kept = store.participant(7).unwrap();
    assert_eq!(kept.nickname, "second");
    assert_eq!(kept.role, ParticipantRole::Host);
    assert_eq!(kept.last_seen_at, 99);
    assert_eq!(kept.created_at, 10);
    assert_eq!(kept.livekit_identity, format!("p_{:032x}", 7));
}

#[test]
fn participants_are_listed_by_arrival() {
    let mut store = Store::new();
    store.upsert_participant(&participant(1, "late", 30));
    store.upsert_participant(&participant(2, "early", 10));
    store.upsert_participant(&participant(3, "tie", 30));
    store.upsert_participant(&participant(4, "middle", 20));
    let names: Vec<String> = store.all_participants().into_iter().map(|p| p.nickname).collect();
    assert_eq!(names, vec!["early", "middle", "late", "tie"]);

    store.begin_connection(3, 30, 0);
    store.begin_connection(2, 20, 0);
    store.begin_connection(1, 10, 0);
    store.mark_connection_left(1, 10, 1);
    store.mark_connection_online(2, 20, Some("PA_2"), 1);
    let present = store.present_participants();
    assert_eq!(present.len(), 2);
    assert_eq!(present[0].participant.nickname, "early");
    assert_eq!(present[0].connection_state, ConnectionState::Online);
    assert_eq!(present[1].participant.nickname, "tie");
    assert_eq!(present[1].connection_state, ConnectionState::Connecting);
}

#[test]
fn connection_goes_through_its_states() {
    let mut store = Store::new();
    store.begin_connection(1, 10, 0);
    let begun = store.connection(1).unwrap();
    assert_eq!(begun.reconnect_deadline, Some(60 * SECOND));
    assert_eq!(begun.changed_at, 0);
    assert!(store.mark_connection_online(1, 10, Some("PA_x"), 5));
    let online = store.connection(1).unwrap();
    assert_eq!(online.state, ConnectionState::Online);
    assert_eq!(online.livekit_participant_sid.as_deref(), Some("PA_x"));
    assert_eq!(online.reconnect_deadline, None);
    assert!(store.mark_connection_reconnecting(1, 10, 100, 6));
    let away = store.connection(1).unwrap();
    assert_eq!(away.state, ConnectionState::Reconnecting);
    assert_eq!(away.livekit_participant_sid.as_deref(), Some("PA_x"));
    assert_eq!(away.reconnect_deadline, Some(100));
    assert!(!store.mark_connection_online(1, 11, None, 7));
    assert!(!store.mark_connection_left(2, 10, 7));
    assert!(store.connection_state(1, 11).is_none());
    assert_eq!(store.connection_state(1, 10), Some(ConnectionState::Reconnecting));
}

#[test]
fn deadlines_take_connections_offline() {
    let mut store = Store::new();
    store.begin_connection(1, 10, 0);
    store.begin_connection(2, 20, 0);
    store.mark_connection_online(2, 20, None, 1);
    store.begin_connection(3, 30, 0);
    store.mark_connection_reconnecting(3, 30, 5 * SECOND, 1);
    assert_eq!(store.present_count(), 3);
    assert_eq!(store.expire_connections(5 * SECOND - 1), 0);
    assert_eq!(store.expire_connections(5 * SECOND), 1);
    assert_eq!(store.connection_state(3, 30), Some(ConnectionState::Offline));
    assert_eq!(store.expire_connections(5 * SECOND), 0);
    assert_eq!(store.expire_connections(60 * SECOND - 1), 0);
    assert_eq!(store.expire_connections(60 * SECOND), 1);
    assert_eq!(store.connection_state(1, 10), Some(ConnectionState::Offline));
    assert_eq!(store.connection_state(2, 20), Some(ConnectionState::Online));
    assert_eq!(store.present_count(), 1);
    assert!(store.is_occupied());
}

#[test]
fn generations_count_up_and_run_out() {
    let mut store = Store::new();
    assert!(store.load_session(SessionRow {
        session: RoomSession { id: 5, generation: 41, host_participant_id: None },
        active: false,
        opened_at: 0,
        closed_at: Some(1),
    }));
    let session = store.ensure_active_room_session(6, 2).unwrap();
    assert_eq!(session.generation, 42);
    assert_eq!(store.ensure_active_room_session(7, 3).unwrap(), session);

    let mut full = Store::new();
    full.load_session(SessionRow {
        session: RoomSession { id: 5, generation: i64::MAX, host_participant_id: None },
        active: false,
        opened_at: 0,
        closed_at: Some(1),
    });
    assert_eq!(
        full.ensure_active_room_session(6, 2),
        Err(StoreError::GenerationsExhausted)
    );
}

#[test]
fn session_identifier_is_not_used_twice() {
    let mut store = Store::new();
    store.ensure_active_room_session(6, 0).unwrap();
    store.close_active_room_session_if_empty(1).unwrap();
    assert_eq!(store.ensure_active_room_session(6, 2), Err(StoreError::IdTaken));
    assert_eq!(store.claim_session_host(1, 6, 2), Err(StoreError::IdTaken));
}

#[test]
fn closing_turns_the_host_into_a_participant() {
    let mut store = Store::new();
    store.upsert_participant(&participant(1, "host", 0));
    assert!(store.claim_session_host(1, 6, 0).unwrap());
    assert_eq!(store.participant(1).unwrap().role, ParticipantRole::Host);
    let closed = store.close_active_room_session_if_empty(9).unwrap();
    assert_eq!(closed.host_participant_id, Some(1));
    assert_eq!(store.participant(1).unwrap().role, ParticipantRole::Participant);
    assert!(store.room_host().is_none());
    assert!(store.close_active_room_session_if_empty(10).is_none());
    let rows = store.room_sessions();
    assert_eq!(rows.len(), 1);
    assert_eq!(rows[0].closed_at, Some(9));
    assert!(!rows[0].active);
}

#[test]
fn sessions_that_contradict_each_other_are_not_loaded() {
    let row = |id, generation, active| SessionRow {
        session: RoomSession { id, generation, host_participant_id: None },
        active,
        opened_at: 0,
        closed_at: None,
    };
    let mut store = Store::new();
    assert!(store.load_session(row(1, 1, false)));
    assert!(store.load_session(row(2, 2, true)));
    assert!(!store.load_session(row(2, 3, false)));
    assert!(!store.load_session(row(3, 1, false)));
    assert!(!store.load_session(row(4, 5, true)));
    assert!(!store.load_session(row(5, 5, false)));
    assert!(store.load_session(row(6, -4, false)));
    assert_eq!(store.active_room_session().unwrap().id, 2);
}

#[test]
fn credentials_are_rotated() {
    let mut store = Store::new();
    assert!(store.resume_credential(1).is_none());
    store.set_resume_credential(1, "first", 10);
    store.set_resume_credential(1, "second", 20);
    assert_eq!(store.resume_credential(1).as_deref(), Some("second"));
    let credential = store.credential(1).unwrap();
    assert_eq!(credential.created_at, 10);
    assert_eq!(credential.rotated_at, 20);
    store.load_credential(
        2,
        Credential { resume_token_hash: "third".to_string(), created_at: 1, rotated_at: 2 },
    );
    assert_eq!(store.resume_credential(2).as_deref(), Some("third"));
}

#[test]
fn recording_in_progress_is_the_one_that_started_last() {
    let mut store = Store::new();
    store.create_recording(&recording(1, RecordingStatus::Stopping, 90), &room(5)).unwrap();
    assert_eq!(store.active_recording().unwrap().id, 1);
    store.create_recording(&recording(2, RecordingStatus::Recording, 10), &room(5)).unwrap();
    store.create_recording(&recording(3, RecordingStatus::Recording, 20), &room(5)).unwrap();
    store.create_recording(&recording(4, RecordingStatus::Recording, 20), &room(5)).unwrap();
    assert_eq!(store.active_recording().unwrap().id, 3);
    store.create_recording(&recording(6, RecordingStatus::Starting, 1), &room(5)).unwrap();
    assert_eq!(store.active_recording().unwrap().id, 6);
    store.create_recording(&recording(7, RecordingStatus::Completed, 100), &room(5)).unwrap();
    assert_eq!(store.active_recording().unwrap().id, 6);
    assert_eq!(
        store.create_recording(&recording(7, RecordingStatus::Starting, 1), &room(5)),
        Err(StoreError::IdTaken)
    );
}

#[test]
fn update_touches_status_end_and_version_only() {
    let mut store = Store::new();
    let mut before = recording(1, RecordingStatus::Starting, 10);
    before.stopped_at_utc = Some(1);
    store.create_recording(&before, &room(5)).unwrap();
    assert_eq!(store.recording(1).unwrap().stopped_at_utc, None);
    let mut after = recording(1, RecordingStatus::Completed, 77);
    after.stopped_at_utc = Some(50);
    after.version = 3;
    after.output_dir = "/elsewhere".to_string();
    store.update_recording(&after);
    let kept = store.recording(1).unwrap();
    assert_eq!(kept.status, RecordingStatus::Completed);
    assert_eq!(kept.stopped_at_utc, Some(50));
    assert_eq!(kept.version, 3);
    assert_eq!(kept.started_at_utc, 10);
    assert_eq!(kept.output_dir, "/recordings/x");
    store.update_recording(&recording(2, RecordingStatus::Failed, 0));
    assert!(store.recording(2).is_none());
}

#[test]
fn recording_remembers_its_room_session() {
    let mut store = Store::new();
    let session = store.ensure_active_room_session(5, 0).unwrap();
    store.create_recording(&recording(1, RecordingStatus::Starting, 10), &session).unwrap();
    assert_eq!(store.recording_room_session(1), Ok(session));
    store.claim_session_host(9, 6, 1).unwrap();
    assert_eq!(
        store.recording_room_session(1),
        Ok(RoomSession { id: 5, generation: 1, host_participant_id: Some(9) })
    );
    assert_eq!(store.recording_room_session(2), Err(StoreError::Missing));
    store.create_recording(&recording(3, RecordingStatus::Failed, 10), &room(77)).unwrap();
    assert_eq!(store.recording_room_session(3), Err(StoreError::Missing));
    store.load_recording(
        recording(4, RecordingStatus::Failed, 1),
        Some(RecordingRoom { room_session_id: 5, room_generation: 8 }),
    );
    assert_eq!(store.recording_room_session(4).unwrap().generation, 8);
}

#[test]
fn track_has_one_segment_per_recording() {
    let mut store = Store::new();
    assert_eq!(store.insert_segment(&segment(1, 100, 7, "TR_a")), Ok(true));
    assert_eq!(store.insert_segment(&segment(2, 100, 7, "TR_a")), Ok(false));
    assert_eq!(store.insert_segment(&segment(1, 100, 7, "TR_b")), Ok(false));
    assert_eq!(store.insert_segment(&segment(3, 101, 7, "TR_a")), Ok(true));
    let row = store.segment(100, "TR_a").unwrap();
    assert_eq!(row.segment.id, 1);
    assert_eq!(row.segment.last_frame_at_ns, None);
    assert_eq!(row.segment.sample_count, 0);
    assert!(row.egress_id.is_none());
    assert!(store.segment(100, "TR_b").is_none());
    let mut wide = segment(4, 100, 7, "TR_c");
    wide.first_frame_at_ns = u64::MAX;
    assert_eq!(store.insert_segment(&wide), Err(StoreError::OutOfRange));
    assert!(!store.load_segment(SegmentRow {
        segment: segment(9, 100, 7, "TR_a"),
        egress_id: None
    }));
    assert!(store.load_segment(SegmentRow {
        segment: segment(9, 100, 7, "TR_z"),
        egress_id: Some("EG_9".to_string())
    }));
    assert_eq!(store.segment(100, "TR_z").unwrap().segment.sample_count, 9);
}

#[test]
fn segment_follows_its_track() {
    let mut store = Store::new();
    store.insert_segment(&segment(1, 100, 7, "TR_a")).unwrap();
    store.set_egress(100, "TR_a", Some("EG_1"), TrackSegmentStatus::Opening);
    store.update_segment_progress(100, "TR_a", 11, 22, 33, TrackSegmentStatus::Writing);
    let row = store.segment(100, "TR_a").unwrap();
    assert_eq!(row.egress_id.as_deref(), Some("EG_1"));
    assert_eq!(row.segment.first_frame_at_ns, 11);
    assert_eq!(row.segment.timeline_start_sample, 22);
    assert_eq!(row.segment.sample_count, 33);
    assert_eq!(row.segment.status, TrackSegmentStatus::Writing);
    store.close_segment(100, "TR_a", 44, 55);
    let row = store.segment(100, "TR_a").unwrap();
    assert_eq!(row.segment.last_frame_at_ns, Some(44));
    assert_eq!(row.segment.sample_count, 55);
    assert_eq!(row.segment.status, TrackSegmentStatus::Closed);
    assert_eq!(row.segment.first_frame_at_ns, 11);
    store.close_segment(100, "TR_unknown", 1, 1);
    assert!(store.segment(100, "TR_unknown").is_none());
}

#[test]
fn segments_are_listed_by_participant_and_start() {
    let mut store = Store::new();
    for (id, participant_id, sid, start) in [
        (1, 9, "TR_a", 5),
        (2, 8, "TR_b", 7),
        (3, 9, "TR_c", 2),
        (4, 8, "TR_d", 7),
    ] {
        let mut s = segment(id, 100, participant_id, sid);
        s.timeline_start_sample = start;
        store.insert_segment(&s).unwrap();
    }
    store.insert_segment(&segment(5, 101, 9, "TR_e")).unwrap();
    let ids: Vec<u128> = store.segments(100).iter().map(|r| r.segment.id).collect();
    assert_eq!(ids, vec![2, 4, 3, 1]);
}

#[test]
fn webhook_identifiers_count_once() {
    let mut store = Store::new();
    assert!(store.record_webhook("EV_1"));
    assert!(!store.record_webhook("EV_1"));
    assert!(store.record_webhook("EV_2"));
}

#[test]
fn loaded_records_are_found_again() {
    let mut store = Store::new();
    store.load_connection(
        3,
        Connection {
            generation: 30,
            livekit_participant_sid: None,
            state: ConnectionState::Offline,
            reconnect_deadline: Some(4),
            changed_at: 5,
        },
    );
    store.load_host(8, "hash".to_string());
    store.set_room_empty_since(Some(12));
    assert_eq!(store.connection_state(3, 30), Some(ConnectionState::Offline));
    assert_eq!(store.host(), Some((8, "hash".to_string())));
    assert_eq!(store.room_empty_since(), Some(12));
    let rows = store.all_connections();
    assert_eq!(rows.len(), 1);
    assert_eq!(rows[0].0, 3);
    assert_eq!(rows[0].1.reconnect_deadline, Some(4));
}

#[test]
fn calendar_leaves_room_for_every_grace_period() {
    assert!(is_schedulable(utc_now()));
    assert!(!is_schedulable(-1));
    assert!(!is_schedulable(i128::MAX));
}
