use voice_room::domain::{
    ConnectionState, Participant, ParticipantRole, RecordingRoom, RecordingSession,
    RecordingStatus, RoomSession, SegmentRow, SessionRow, Connection, Credential, TrackSegment,
    TrackSegmentStatus,
};
use voice_room::egress::{egress_signature, EgressQuery};
use voice_room::events::{
    connection_generation_from_event, egress_id_in, is_microphone_track, list_microphone_tracks,
    microphone_track_from_event, participant_id_from_event,
};
use voice_room::ids::{livekit_identity, uuid_text};
use voice_room::json::Json;
use voice_room::log::{
    append_event, egress_started_event, left_event, livekit_event, recording_event,
    segment_closed_event,
};
use voice_room::recording::{
    accept_stream, advance, begin_stop, check_disk, complete_recording, note_egress,
    open_recording, plan_final, plan_track, recording_dir, recording_view, segment_dir, start_gate,
    stop_track, track_file, track_name, EgressRefusal, StopStep, TrackStop, MIN_FREE_BYTES,
};
use voice_room::reply::Refusal;
use voice_room::rows::{
    connection_from_row, connection_row, credential_from_row, credential_row,
    participant_from_row, participant_row, recording_from_row, recording_row, role_from,
    role_name, segment_from_row, segment_row, segment_status_from, segment_status_name,
    session_from_row, session_row, status_from, status_name, to_signed, to_unsigned,
};
use voice_room::store::Store;
use voice_room::text::{join_path, safe_filename, safe_track_id, trim};
use voice_room::webhook::{webhook, TrackWork, WebhookOutcome};

const SECOND: i128 = 1_000_000_000;
const ADA: u128 = 0xa;
const BOB: u128 = 0xb;

fn text(s: &str) -> Json {
    Json::Text(s.to_string())
}

fn object(members: Vec<(&str, Json)>) -> Json {
    Json::Object(members.into_iter().map(|(n, v)| (n.to_string(), v)).collect())
}

fn microphone(sid: &str) -> Json {
    object(vec![
        ("sid", text(sid)),
        ("type", text("AUDIO")),
        ("source", text("MICROPHONE")),
    ])
}

fn event(name: &str, id: &str, who: u128, generation: u128, track: Option<Json>) -> Json {
    let metadata = format!("{{\"connection_generation\":\"{}\"}}", uuid_text(generation));
    let mut members = vec![
        ("event", text(name)),
        ("id", text(id)),
        (
            "participant",
            object(vec![
                ("identity", Json::Text(livekit_identity(who))),
                ("metadata", Json::Text(metadata)),
                ("sid", text("PA_x")),
            ]),
        ),
    ];
    if let Some(track) = track {
        members.push(("track", track));
    }
    object(members)
}

fn participant(id: u128, nickname: &str, created_at: i128) -> Participant {
    Participant {
        id,
        livekit_identity: livekit_identity(id),
        nickname: nickname.to_string(),
        role: ParticipantRole::Participant,
        created_at,
        last_seen_at: created_at,
    }
}

/// A room with a host (Ada) and a participant (Bob), both online.
fn occupied() -> Store {
    let mut store = Store::new();
    for (id, name, generation) in [(ADA, "Ada", 1), (BOB, "Bob / *", 2)] {
        store.upsert_participant(&participant(id, name, id as i128));
        store.begin_connection(id, generation, 0);
        store.mark_connection_online(id, generation, None, 0);
    }
    store.claim_session_host(ADA, 77, 0).unwrap();
    store
}

fn running(store: &mut Store) -> RecordingSession {
    let mut recording = open_recording(store, 99, "/rec", 0).unwrap();
    advance(store, &mut recording, RecordingStatus::Recording);
    recording
}

#[test]
fn only_the_host_starts_a_recording() {
    let mut store = occupied();
    assert_eq!(start_gate(&store, Some((BOB, 2))).unwrap_err(), Refusal::HostRequired);
    assert_eq!(start_gate(&store, Some((ADA, 2))).unwrap_err(), Refusal::HostRequired);
    assert_eq!(start_gate(&store, None).unwrap_err(), Refusal::HostRequired);
    assert!(start_gate(&store, Some((ADA, 1))).unwrap().is_none());
    running(&mut store);
    assert_eq!(start_gate(&store, Some((ADA, 1))).unwrap().unwrap().id, 99);
}

#[test]
fn recording_needs_space_on_the_disk() {
    assert_eq!(check_disk(MIN_FREE_BYTES, MIN_FREE_BYTES), Ok(()));
    assert_eq!(check_disk(MIN_FREE_BYTES - 1, MIN_FREE_BYTES), Err(Refusal::DiskFull));
    assert_eq!(MIN_FREE_BYTES, 256 * 1024 * 1024);
}

#[test]
fn recording_is_opened_under_the_room_session() {
    let mut store = occupied();
    let recording = open_recording(&mut store, 99, "/rec", 7).unwrap();
    assert_eq!(recording.status, RecordingStatus::Starting);
    assert_eq!(recording.started_at_utc, 7);
    assert_eq!(recording.target_sample_rate, 48_000);
    assert_eq!(recording.target_channels, 1);
    assert_eq!(recording.target_sample_format, "s16le");
    assert_eq!(recording.output_dir, "/rec");
    assert_eq!(recording.version, 1);
    assert_eq!(store.recording_room_session(99).unwrap().id, 77);
    assert_eq!(open_recording(&mut store, 99, "/rec", 7).unwrap_err(), Refusal::Internal);
    assert_eq!(
        open_recording(&mut Store::new(), 1, "/rec", 7).unwrap_err(),
        Refusal::Internal
    );
    assert_eq!(
        recording_dir("/recordings", 0x9),
        "/recordings/rec_00000000-0000-0000-0000-000000000009"
    );
}

#[test]
fn stopping_twice_stops_once() {
    let mut store = occupied();
    let recording = running(&mut store);
    plan_track(&mut store, &recording, BOB, "TR_b", 501).unwrap().unwrap();
    note_egress(&mut store, 99, "TR_b", Some("EG_b"));
    plan_track(&mut store, &recording, ADA, "TR_a", 502).unwrap().unwrap();
    plan_track(&mut store, &recording, ADA, "TR_c", 503).unwrap().unwrap();
    note_egress(&mut store, 99, "TR_c", Some("EG_c"));
    match begin_stop(&mut store, 99).unwrap() {
        StopStep::Stop(stopping, egress) => {
            assert_eq!(stopping.status, RecordingStatus::Stopping);
            assert_eq!(stopping.version, 3);
            assert_eq!(egress, vec!["EG_c", "EG_b"]);
        }
        StopStep::Already(_) => panic!("was not stopped before"),
    }
    assert!(matches!(begin_stop(&mut store, 99).unwrap(), StopStep::Already(_)));
    assert_eq!(store.recording(99).unwrap().version, 3);
    assert_eq!(begin_stop(&mut store, 1).unwrap_err(), Refusal::RecordingNotFound);
}

#[test]
fn finished_recording_is_complete() {
    let mut store = occupied();
    let mut recording = running(&mut store);
    complete_recording(&mut store, &mut recording, 50);
    assert_eq!(recording.status, RecordingStatus::Completed);
    assert_eq!(recording.stopped_at_utc, Some(50));
    assert_eq!(recording.version, 3);
    let kept = store.recording(99).unwrap();
    assert_eq!(kept.status, RecordingStatus::Completed);
    assert_eq!(kept.stopped_at_utc, Some(50));
    advance(&mut store, &mut recording, RecordingStatus::Failed);
    assert_eq!(store.recording(99).unwrap().status, RecordingStatus::Failed);
    assert_eq!(store.recording(99).unwrap().version, 4);
    assert!(store.active_recording().is_none());
}

#[test]
fn segments_are_numbered_per_participant() {
    let mut store = occupied();
    let recording = running(&mut store);
    let first = plan_track(&mut store, &recording, ADA, "TR_/a", 501).unwrap().unwrap();
    assert_eq!(first.segment_index, 1);
    assert_eq!(
        first.pcm_path,
        format!("/rec/segments/p_{}/0001_TR_a.pcm", uuid_text(ADA))
    );
    assert_eq!(segment_dir("/rec", ADA), format!("/rec/segments/p_{}", uuid_text(ADA)));
    assert!(plan_track(&mut store, &recording, ADA, "TR_/a", 502).unwrap().is_none());
    let second = plan_track(&mut store, &recording, ADA, "TR_b", 503).unwrap().unwrap();
    assert_eq!(second.segment_index, 2);
    let other = plan_track(&mut store, &recording, BOB, "TR_c", 504).unwrap().unwrap();
    assert_eq!(other.segment_index, 1);
    let mut stopped = store.recording(99).unwrap();
    advance(&mut store, &mut stopped, RecordingStatus::Stopping);
    assert_eq!(
        plan_track(&mut store, &stopped, BOB, "TR_d", 505).unwrap_err(),
        EgressRefusal::NotAccepting
    );
}

#[test]
fn reply_of_the_media_server_is_noted() {
    let mut store = occupied();
    let recording = running(&mut store);
    plan_track(&mut store, &recording, ADA, "TR_a", 501).unwrap();
    note_egress(&mut store, 99, "TR_a", Some("EG_1"));
    let row = store.segment(99, "TR_a").unwrap();
    assert_eq!(row.egress_id.as_deref(), Some("EG_1"));
    assert_eq!(row.segment.status, TrackSegmentStatus::Opening);
    note_egress(&mut store, 99, "TR_a", None);
    let row = store.segment(99, "TR_a").unwrap();
    assert!(row.egress_id.is_none());
    assert_eq!(row.segment.status, TrackSegmentStatus::Failed);
    assert_eq!(
        egress_id_in(&object(vec![("egress_id", text("EG_1"))])).as_deref(),
        Some("EG_1")
    );
    assert_eq!(
        egress_id_in(&object(vec![("egressId", text("EG_2"))])).as_deref(),
        Some("EG_2")
    );
    assert_eq!(
        egress_id_in(&object(vec![("egress_id", Json::Null), ("egressId", text("EG_2"))])),
        None
    );
    assert_eq!(egress_id_in(&Json::Null), None);
}

#[test]
fn given_up_track_is_stopped_or_closed() {
    let mut store = occupied();
    let recording = running(&mut store);
    assert!(matches!(stop_track(&mut store, &recording, "TR_a", 9), TrackStop::Nothing));
    plan_track(&mut store, &recording, ADA, "TR_a", 501).unwrap();
    store.update_segment_progress(99, "TR_a", 20, 1, 30, TrackSegmentStatus::Writing);
    assert!(matches!(stop_track(&mut store, &recording, "TR_a", 9), TrackStop::Closed));
    let row = store.segment(99, "TR_a").unwrap();
    assert_eq!(row.segment.status, TrackSegmentStatus::Closed);
    assert_eq!(row.segment.last_frame_at_ns, Some(20));
    assert_eq!(row.segment.sample_count, 30);
    assert!(matches!(stop_track(&mut store, &recording, "TR_a", 9), TrackStop::Nothing));
    plan_track(&mut store, &recording, ADA, "TR_b", 502).unwrap();
    assert!(matches!(stop_track(&mut store, &recording, "TR_b", 9), TrackStop::Closed));
    assert_eq!(store.segment(99, "TR_b").unwrap().segment.last_frame_at_ns, Some(9));
    plan_track(&mut store, &recording, ADA, "TR_c", 503).unwrap();
    note_egress(&mut store, 99, "TR_c", Some("EG_c"));
    match stop_track(&mut store, &recording, "TR_c", 9) {
        TrackStop::StopEgress(id) => assert_eq!(id, "EG_c"),
        _ => panic!("an egress runs"),
    }
}

#[test]
fn stream_must_be_signed_and_known() {
    let mut store = occupied();
    let recording = running(&mut store);
    plan_track(&mut store, &recording, ADA, "TR_a", 501).unwrap();
    let query = |who: u128, exp: u64| EgressQuery {
        participant_id: who,
        exp,
        sig: egress_signature("secret", 99, "TR_a", who, exp),
    };
    let row = accept_stream(&store, "secret", 99, "TR_a", &query(ADA, 10), 10).unwrap();
    assert_eq!(row.segment.id, 501);
    assert_eq!(
        accept_stream(&store, "secret", 99, "TR_a", &query(ADA, 10), 11).unwrap_err(),
        Refusal::InvalidSignature
    );
    assert_eq!(
        accept_stream(&store, "secret", 99, "TR_b", &query(ADA, 10), 10).unwrap_err(),
        Refusal::InvalidSignature
    );
    assert_eq!(
        accept_stream(&store, "secret", 99, "TR_a", &query(BOB, 10), 10).unwrap_err(),
        Refusal::UnknownTrack
    );
    let unknown = EgressQuery {
        participant_id: ADA,
        exp: 10,
        sig: egress_signature("secret", 99, "TR_z", ADA, 10),
    };
    assert_eq!(
        accept_stream(&store, "secret", 99, "TR_z", &unknown, 10).unwrap_err(),
        Refusal::UnknownTrack
    );
}

#[test]
fn tracks_are_planned_on_one_timeline() {
    let mut store = occupied();
    let recording = running(&mut store);
    for (id, who, sid, start, count, status) in [
        (1, BOB, "TR_1", 900, 100, TrackSegmentStatus::Closed),
        (2, ADA, "TR_2", 50, 10, TrackSegmentStatus::Closed),
        (3, ADA, "TR_3", 20, 10, TrackSegmentStatus::Writing),
        (4, ADA, "TR_4", 0, 96_500, TrackSegmentStatus::Failed),
    ] {
        plan_track(&mut store, &recording, who, sid, id).unwrap();
        store.update_segment_progress(99, sid, 1, start, count, status);
    }
    let plan = plan_final(&store, &recording, SECOND);
    assert_eq!(plan.timeline_samples, 96_500);
    assert_eq!(plan.tracks.len(), 2);
    let ada = &plan.tracks[0];
    assert_eq!(ada.participant_id, ADA);
    assert_eq!(ada.nickname, "Ada");
    let name = format!("p_{}_Ada.wav", uuid_text(ADA));
    assert_eq!(ada.final_file, format!("tracks/{name}"));
    assert_eq!(ada.output, format!("/rec/tracks/{name}"));
    assert_eq!(ada.tmp, format!("/rec/tmp/{name}.tmp"));
    let starts: Vec<u64> = ada.segments.iter().map(|s| s.0).collect();
    assert_eq!(starts, vec![20, 50]);
    assert_eq!(plan.tracks[1].segments.len(), 1);
    let later = plan_final(&store, &recording, 10 * SECOND);
    assert_eq!(later.timeline_samples, 480_000);
    assert_eq!(track_name(BOB, "Bob / *"), format!("p_{}_Bob.wav", uuid_text(BOB)));
}

#[test]
fn silent_participants_have_no_track() {
    let mut store = occupied();
    let recording = running(&mut store);
    assert!(plan_final(&store, &recording, 0).tracks.is_empty());
    assert_eq!(plan_final(&store, &recording, 0).timeline_samples, 0);
}

#[test]
fn recordings_are_shown_to_participants() {
    let mut store = occupied();
    running(&mut store);
    assert_eq!(recording_view(&store, Some((BOB, 2)), 99).unwrap().id, 99);
    assert_eq!(
        recording_view(&store, Some((BOB, 2)), 1).unwrap_err(),
        Refusal::RecordingNotFound
    );
    assert_eq!(
        recording_view(&store, Some((BOB, 3)), 99).unwrap_err(),
        Refusal::ParticipantRequired
    );
}

#[test]
fn track_files_are_for_the_host() {
    let mut store = occupied();
    running(&mut store);
    assert_eq!(
        track_file(&store, Some((ADA, 1)), 99, BOB).unwrap(),
        format!("/rec/tracks/p_{}_Bob.wav", uuid_text(BOB))
    );
    assert_eq!(
        track_file(&store, Some((BOB, 2)), 99, BOB).unwrap_err(),
        Refusal::HostRequired
    );
    assert_eq!(
        track_file(&store, Some((ADA, 1)), 1, BOB).unwrap_err(),
        Refusal::RecordingNotFound
    );
    assert_eq!(
        track_file(&store, Some((ADA, 1)), 99, 5).unwrap_err(),
        Refusal::ParticipantNotFound
    );
}

#[test]
fn microphones_are_told_from_other_tracks() {
    let track = |kind: (&str, Json), source: Json| object(vec![kind, ("source", source)]);
    for (kind, source) in [
        (("type", text("audio")), text("microphone")),
        (("type", text("AuDiO")), text("MICROPHONE")),
        (("kind", text("KIND_AUDIO")), text("1")),
        (("type", text("1")), Json::Int(1)),
    ] {
        assert!(is_microphone_track(&track(kind, source)));
    }
    for (kind, source) in [
        (("type", text("video")), text("microphone")),
        (("type", text("audio")), text("screen_share_audio")),
        (("type", text("audio")), Json::Int(2)),
        (("type", text("kind_audio")), text("microphone")),
        (("type", Json::Int(1)), text("microphone")),
        (("name", text("audio")), text("microphone")),
    ] {
        assert!(!is_microphone_track(&track(kind, source)));
    }
    assert!(!is_microphone_track(&object(vec![("type", text("audio"))])));
    let both = object(vec![
        ("type", Json::Null),
        ("kind", text("audio")),
        ("source", text("microphone")),
    ]);
    assert!(!is_microphone_track(&both));
}

#[test]
fn events_name_participant_and_connection() {
    let joined = event("participant_joined", "EV", ADA, 7, None);
    assert_eq!(participant_id_from_event(&joined), Some(ADA));
    assert_eq!(connection_generation_from_event(&joined), Some(7));
    assert_eq!(participant_id_from_event(&Json::Null), None);
    assert_eq!(connection_generation_from_event(&object(vec![])), None);
    let odd = object(vec![(
        "participant",
        object(vec![("identity", text("guest")), ("metadata", text("not json"))]),
    )]);
    assert_eq!(participant_id_from_event(&odd), None);
    assert_eq!(connection_generation_from_event(&odd), None);
}

#[test]
fn track_of_a_stale_connection_is_ignored() {
    let store = occupied();
    let current = event("track_published", "EV", ADA, 1, Some(microphone("TR_a")));
    assert_eq!(
        microphone_track_from_event(&store, &current),
        Some((ADA, "TR_a".to_string()))
    );
    let stale = event("track_published", "EV", ADA, 9, Some(microphone("TR_a")));
    assert_eq!(microphone_track_from_event(&store, &stale), None);
    let bare = event("track_published", "EV", ADA, 1, None);
    assert_eq!(microphone_track_from_event(&store, &bare), None);
    let camera = event(
        "track_published",
        "EV",
        ADA,
        1,
        Some(object(vec![("sid", text("TR_v")), ("type", text("video"))])),
    );
    assert_eq!(microphone_track_from_event(&store, &camera), None);
}

#[test]
fn listed_microphones_are_found() {
    let body = object(vec![(
        "participants",
        Json::List(vec![
            object(vec![
                ("identity", Json::Text(livekit_identity(ADA))),
                (
                    "tracks",
                    Json::List(vec![
                        microphone("TR_1"),
                        object(vec![("sid", text("TR_v")), ("type", text("video"))]),
                        microphone("TR_2"),
                    ]),
                ),
            ]),
            object(vec![
                ("identity", text("someone")),
                ("tracks", Json::List(vec![microphone("TR_3")])),
            ]),
            object(vec![("identity", Json::Text(livekit_identity(BOB)))]),
        ]),
    )]);
    assert_eq!(
        list_microphone_tracks(&body),
        vec![(ADA, "TR_1".to_string()), (ADA, "TR_2".to_string())]
    );
    assert!(list_microphone_tracks(&Json::Null).is_empty());
}

#[test]
fn webhook_event_counts_once() {
    let mut store = occupied();
    store.begin_connection(ADA, 5, 0);
    let joined = event("participant_joined", "EV_1", ADA, 5, None);
    assert!(matches!(webhook(&mut store, &joined, 3), WebhookOutcome::NotRecording));
    let connection = store.connection(ADA).unwrap();
    assert_eq!(connection.state, ConnectionState::Online);
    assert_eq!(connection.livekit_participant_sid.as_deref(), Some("PA_x"));
    store.mark_connection_left(ADA, 5, 4);
    assert!(matches!(webhook(&mut store, &joined, 5), WebhookOutcome::Duplicate));
    assert_eq!(store.connection(ADA).unwrap().state, ConnectionState::Left);
    for bad in [
        Json::Null,
        object(vec![("event", text("x"))]),
        object(vec![("event", text("")), ("id", text("EV"))]),
        object(vec![("event", text("x")), ("id", text(""))]),
    ] {
        assert!(matches!(
            webhook(&mut store, &bad, 3),
            WebhookOutcome::Refused(Refusal::InvalidWebhookEvent)
        ));
    }
}

#[test]
fn host_is_waited_for_longer() {
    let mut store = occupied();
    webhook(&mut store, &event("participant_left", "EV_1", ADA, 1, None), 0);
    webhook(&mut store, &event("participant_left", "EV_2", BOB, 2, None), 0);
    assert_eq!(store.connection(ADA).unwrap().reconnect_deadline, Some(300 * SECOND));
    assert_eq!(store.connection(BOB).unwrap().reconnect_deadline, Some(60 * SECOND));
    webhook(&mut store, &event("participant_left", "EV_3", BOB, 99, None), 50);
    assert_eq!(store.connection(BOB).unwrap().changed_at, 0);
}

#[test]
fn webhook_starts_and_stops_tracks() {
    let mut store = occupied();
    let recording = running(&mut store);
    let published = event("track_published", "EV_1", ADA, 1, Some(microphone("TR_a")));
    match webhook(&mut store, &published, 3) {
        WebhookOutcome::Recording(r, TrackWork::Start(who, sid)) => {
            assert_eq!(r.id, 99);
            assert_eq!(who, ADA);
            assert_eq!(sid, "TR_a");
        }
        other => panic!("{other:?}"),
    }
    let unpublished = event("track_unpublished", "EV_2", ADA, 1, Some(microphone("TR_a")));
    match webhook(&mut store, &unpublished, 3) {
        WebhookOutcome::Recording(_, TrackWork::Stop(sids)) => assert_eq!(sids, vec!["TR_a"]),
        other => panic!("{other:?}"),
    }
    plan_track(&mut store, &recording, ADA, "TR_a", 501).unwrap();
    plan_track(&mut store, &recording, BOB, "TR_b", 502).unwrap();
    plan_track(&mut store, &recording, ADA, "TR_c", 503).unwrap();
    match webhook(&mut store, &event("participant_left", "EV_3", ADA, 1, None), 3) {
        WebhookOutcome::Recording(_, TrackWork::Stop(sids)) => {
            assert_eq!(sids, vec!["TR_a", "TR_c"])
        }
        other => panic!("{other:?}"),
    }
    assert!(matches!(
        webhook(&mut store, &event("room_finished", "EV_4", ADA, 1, None), 3),
        WebhookOutcome::Recording(_, TrackWork::Nothing)
    ));
    let stale = event("track_published", "EV_5", BOB, 9, Some(microphone("TR_z")));
    assert!(matches!(
        webhook(&mut store, &stale, 3),
        WebhookOutcome::Recording(_, TrackWork::Nothing)
    ));
}

#[test]
fn events_are_logged_one_per_line() {
    let mut log = String::new();
    append_event(&mut log, &recording_event("recording_started", "T"));
    append_event(&mut log, &left_event(ADA, "T"));
    append_event(&mut log, &livekit_event("a\nb", "EV", None, None, "T"));
    append_event(&mut log, &egress_started_event(ADA, "TR", "EG", "T"));
    append_event(&mut log, &segment_closed_event(ADA, "TR", 12, "T"));
    let id = uuid_text(ADA);
    let lines: Vec<String> = log.lines().map(str::to_string).collect();
    assert_eq!(
        lines,
        vec![
            "{\"at\":\"T\",\"type\":\"recording_started\"}".to_string(),
            format!("{{\"at\":\"T\",\"participant_id\":\"{id}\",\"reason\":\"graceful\",\"type\":\"participant_left\"}}"),
            "{\"at\":\"T\",\"livekit_event\":\"EV\",\"type\":\"a\\nb\"}".to_string(),
            format!("{{\"at\":\"T\",\"egress_id\":\"EG\",\"participant_id\":\"{id}\",\"track_sid\":\"TR\",\"type\":\"egress_started\"}}"),
            format!("{{\"at\":\"T\",\"participant_id\":\"{id}\",\"samples\":12,\"track_sid\":\"TR\",\"type\":\"segment_closed\"}}"),
        ]
    );
    assert!(log.ends_with('\n'));
}

#[test]
fn refusals_have_status_and_message() {
    for (refusal, status, message) in [
        (Refusal::InvalidNickname, 400, Some("nickname must be 1-80 characters")),
        (Refusal::InvalidWebhookEvent, 400, Some("invalid webhook event")),
        (Refusal::ParticipantRequired, 401, Some("participant authorization required")),
        (Refusal::InvalidResumeToken, 401, Some("invalid resume credential")),
        (Refusal::IdentityGone, 401, Some("identity no longer exists")),
        (Refusal::InvalidWebhook, 401, Some("invalid webhook")),
        (Refusal::InvalidSignature, 401, None),
        (Refusal::HostRequired, 403, Some("host authorization required")),
        (Refusal::RecordingNotFound, 404, Some("recording not found")),
        (Refusal::ParticipantNotFound, 404, Some("participant not found")),
        (Refusal::TrackFileNotFound, 404, Some("track file not found")),
        (Refusal::UnknownTrack, 404, None),
        (Refusal::HostTaken, 409, Some("this room session already has a host")),
        (Refusal::Internal, 500, Some("internal server error")),
        (Refusal::NoHostPassword, 503, Some("host password is not configured")),
        (Refusal::DiskFull, 507, Some("insufficient recording disk space")),
    ] {
        assert_eq!(refusal.status(), status);
        assert_eq!(refusal.message(), message);
    }
}

#[test]
fn names_are_made_safe() {
    assert_eq!(safe_filename("Bob / *"), "Bob");
    assert_eq!(safe_filename("a b.c-d_e"), "a_b_c-d_e");
    assert_eq!(safe_filename("\u{5c0f}\u{660e}"), "\u{5c0f}\u{660e}");
    assert_eq!(safe_filename("Zo\u{eb} \u{44f}\u{3042}\u{664}"), "Zo\u{eb}_\u{44f}\u{3042}\u{664}");
    assert_eq!(safe_filename("a\u{3000}b\u{3002}c\u{85}d\u{202e}e"), "a_b_c_d_e");
    assert_eq!(safe_filename("../\u{ff0f}etc"), "etc");
    assert_eq!(safe_filename("\u{1f600}"), "participant");
    assert_eq!(safe_filename(""), "participant");
    assert_eq!(safe_filename(&"x".repeat(60)), "x".repeat(48));
    assert_eq!(safe_track_id("TR_../a-b 1"), "TR_a-b1");
    assert_eq!(safe_track_id("///"), "");
    assert_eq!(trim(" \u{a0}x y\n"), "x y");
    assert_eq!(join_path("/a", "b"), "/a/b");
    assert_eq!(join_path("/a/", "b"), "/a/b");
    assert_eq!(join_path("/a", "/b"), "/b");
    assert_eq!(join_path("", "b"), "b");
}

#[test]
fn names_of_values_are_read_back() {
    for role in [ParticipantRole::Host, ParticipantRole::Participant] {
        assert_eq!(role_from(role_name(&role)), role);
    }
    for status in [
        RecordingStatus::Starting,
        RecordingStatus::Recording,
        RecordingStatus::Stopping,
        RecordingStatus::Completed,
        RecordingStatus::Failed,
    ] {
        assert_eq!(status_from(status_name(&status)), status);
    }
    for status in [
        TrackSegmentStatus::Opening,
        TrackSegmentStatus::Writing,
        TrackSegmentStatus::Closed,
        TrackSegmentStatus::Failed,
    ] {
        assert_eq!(segment_status_from(segment_status_name(&status)), status);
    }
    assert_eq!(role_name(&ParticipantRole::Host), "host");
    assert_eq!(status_name(&RecordingStatus::Completed), "completed");
    assert_eq!(segment_status_name(&TrackSegmentStatus::Writing), "writing");
    assert_eq!(role_from("admin"), ParticipantRole::Participant);
    assert_eq!(status_from("?"), RecordingStatus::Failed);
    assert_eq!(segment_status_from("?"), TrackSegmentStatus::Failed);
}

#[test]
fn participant_and_credential_rows_are_read_back() {
    let ada = participant(ADA, "Ada", 1_700_000_000_000_000_001);
    let mut row = participant_row(&ada).unwrap();
    assert_eq!(row.id, uuid_text(ADA));
    assert_eq!(row.role, "participant");
    let read = participant_from_row(&row).unwrap();
    assert_eq!(read.id, ADA);
    assert_eq!(read.nickname, "Ada");
    assert_eq!(read.created_at, 1_700_000_000_000_000_001);
    row.created_at = "never".to_string();
    assert!(participant_from_row(&row).is_none());
    assert!(participant_row(&participant(ADA, "Ada", -1)).is_some());
    assert!(participant_row(&participant(ADA, "Ada", i128::MAX)).is_none());

    let credential =
        Credential { resume_token_hash: "h".to_string(), created_at: 3, rotated_at: 4 };
    let mut row = credential_row(ADA, &credential).unwrap();
    let (id, read) = credential_from_row(&row).unwrap();
    assert_eq!(id, ADA);
    assert_eq!(read.rotated_at, 4);
    row.participant_id = "x".to_string();
    assert!(credential_from_row(&row).is_none());
}

#[test]
fn connection_and_session_rows_are_read_back() {
    let connection = Connection {
        generation: 5,
        livekit_participant_sid: Some("PA".to_string()),
        state: ConnectionState::Reconnecting,
        reconnect_deadline: Some(9),
        changed_at: 8,
    };
    let mut row = connection_row(BOB, &connection).unwrap();
    assert_eq!(row.state, "reconnecting");
    let (id, read) = connection_from_row(&row).unwrap();
    assert_eq!(id, BOB);
    assert_eq!(read.generation, 5);
    assert_eq!(read.state, ConnectionState::Reconnecting);
    assert_eq!(read.reconnect_deadline, Some(9));
    row.state = "gone".to_string();
    assert_eq!(connection_from_row(&row).unwrap().1.state, ConnectionState::Offline);
    row.generation = "gone".to_string();
    assert!(connection_from_row(&row).is_none());

    let session = SessionRow {
        session: RoomSession { id: 6, generation: 2, host_participant_id: Some(ADA) },
        active: true,
        opened_at: 1,
        closed_at: None,
    };
    let mut row = session_row(&session).unwrap();
    assert_eq!(row.state, "active");
    let read = session_from_row(&row).unwrap();
    assert_eq!(read.session, session.session);
    assert!(read.active);
    row.host_participant_id = Some("nobody".to_string());
    assert!(session_from_row(&row).is_none());
}

#[test]
fn recording_and_segment_rows_are_read_back() {
    let mut store = occupied();
    let recording = running(&mut store);
    let mut row = recording_row(&recording).unwrap();
    assert_eq!(row.status, "recording");
    let read = recording_from_row(&row).unwrap();
    assert_eq!(read.version, 2);
    assert_eq!(read.stopped_at_utc, None);
    row.stopped_at_utc = Some("never".to_string());
    assert!(recording_from_row(&row).is_none());
    store.load_recording(read, Some(RecordingRoom { room_session_id: 77, room_generation: 1 }));

    let segment = SegmentRow {
        segment: TrackSegment {
            id: 1,
            recording_id: 99,
            participant_id: ADA,
            livekit_track_sid: "TR".to_string(),
            segment_index: 3,
            first_frame_at_ns: u64::MAX,
            last_frame_at_ns: Some(u64::MAX - 1),
            timeline_start_sample: 5,
            sample_count: 1 << 63,
            pcm_path: "/x".to_string(),
            status: TrackSegmentStatus::Closed,
        },
        egress_id: Some("EG".to_string()),
    };
    let mut row = segment_row(&segment);
    assert_eq!(row.first_frame_at_ns, -1);
    assert_eq!(row.sample_count, i64::MIN);
    let read = segment_from_row(&row).unwrap();
    assert_eq!(read.segment.first_frame_at_ns, u64::MAX);
    assert_eq!(read.segment.last_frame_at_ns, Some(u64::MAX - 1));
    assert_eq!(read.segment.sample_count, 1 << 63);
    assert_eq!(read.egress_id.as_deref(), Some("EG"));
    row.id = "?".to_string();
    assert!(segment_from_row(&row).is_none());
    for value in [0, 1, i64::MAX as u64, i64::MAX as u64 + 1, u64::MAX] {
        assert_eq!(to_signed(value), value as i64);
        assert_eq!(to_unsigned(value as i64), value);
    }
}
