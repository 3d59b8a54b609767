use voice_room::auth::resume_token_participant_id;
use voice_room::domain::{ParticipantRole, RecordingSession, RecordingStatus, RoomSession};
use voice_room::ids::uuid_text;
use voice_room::json::{document, list_text, lookup, FoundMember, IndentedWriter};
use voice_room::log::{
    append_event, egress_started_event, left_event, livekit_event, recording_event,
    segment_closed_event,
};
use voice_room::pcm::SegmentEnd;
use voice_room::recording::{begin_stop, open_recording, FinalPlan, StopStep, TrackPlan};
use voice_room::reply::Refusal;
use voice_room::report::{finish_recording, segment_text, session_text};
use voice_room::room::{draw, join, participant_at, resume, Settings};
use voice_room::store::Store;
use voice_room::webhook::logged_event;

const DAY: i128 = 1_700_000_000_000_000_000;

/// A JSON text as `serde_json` indents it.
fn pretty(text: &str) -> String {
    let value: serde_json::Value = serde_json::from_str(text).unwrap();
    serde_json::to_string_pretty(&value).unwrap()
}

fn opened() -> (Store, RecordingSession) {
    let mut store = Store::new();
    store.ensure_active_room_session(5, 0).unwrap();
    let recording = open_recording(&mut store, 99, "/rec", DAY).unwrap();
    (store, recording)
}

fn track(participant_id: u128, nickname: &str, segments: usize) -> TrackPlan {
    TrackPlan {
        participant_id,
        nickname: nickname.to_string(),
        final_file: format!("tracks/{nickname}.wav"),
        output: String::new(),
        tmp: String::new(),
        segments: vec![(0, String::new()); segments],
    }
}

#[test]
fn one_failed_track_leaves_one_warning() {
    let (mut store, mut recording) = opened();
    let plan = FinalPlan {
        timeline_samples: 48_000,
        tracks: vec![track(7, "Ada", 2), track(8, "Bob", 1)],
    };
    let written = vec![Err("no \"space\"".to_string()), Ok(())];
    let manifest = finish_recording(&mut store, &mut recording, &plan, &written, DAY + 1);
    assert_eq!(recording.status, RecordingStatus::Completed);
    assert_eq!(recording.stopped_at_utc, Some(DAY + 1));
    assert_eq!(recording.version, 2);
    assert_eq!(store.recording(99).unwrap().status, RecordingStatus::Completed);
    let expected = [
        "{",
        "  \"participants\": [",
        "    {",
        "      \"final_file\": \"tracks/Ada.wav\",",
        "      \"nickname\": \"Ada\",",
        "      \"participant_id\": \"00000000-0000-0000-0000-000000000007\",",
        "      \"segments\": 2,",
        "      \"warnings\": [",
        "        \"no \\\"space\\\"\"",
        "      ]",
        "    },",
        "    {",
        "      \"final_file\": \"tracks/Bob.wav\",",
        "      \"nickname\": \"Bob\",",
        "      \"participant_id\": \"00000000-0000-0000-0000-000000000008\",",
        "      \"segments\": 1,",
        "      \"warnings\": []",
        "    }",
        "  ],",
        "  \"recording_id\": \"00000000-0000-0000-0000-000000000063\",",
        "  \"timeline_samples\": 48000",
        "}",
    ]
    .join("\n");
    assert_eq!(manifest, expected);
    assert_eq!(manifest, pretty(&manifest));
}

#[test]
fn session_tells_how_far_a_recording_has_come() {
    let (mut store, mut recording) = opened();
    let session = RoomSession { id: 5, generation: 3, host_participant_id: None };
    let ada = participant_at(7, "Ada", ParticipantRole::Host, DAY);
    let identity = ada.livekit_identity.clone();
    let everyone = vec![ada];
    let text = session_text(&recording, &session, &everyone, None).unwrap();
    assert_eq!(text, pretty(&text));
    let expected = format!(
        "{{\"channels\":1,\"participants\":[{{\"created_at\":\"2023-11-14T22:13:20Z\",\"final_file\":null,\"id\":\"{id}\",\"last_seen_at\":\"2023-11-14T22:13:20Z\",\"livekit_identity\":\"{identity}\",\"nickname\":\"Ada\",\"participant_id\":\"{id}\",\"role\":\"host\",\"segments\":0,\"warnings\":[]}}],\"recording_id\":\"{recording}\",\"room_generation\":3,\"room_name\":\"main\",\"room_session_id\":\"{room}\",\"sample_format\":\"s16le\",\"sample_rate\":48000,\"started_at\":\"2023-11-14T22:13:20Z\",\"status\":\"starting\",\"stopped_at\":null,\"timeline_samples\":null}}",
        id = uuid_text(7),
        recording = uuid_text(99),
        room = uuid_text(5)
    );
    assert_eq!(text, pretty(&expected));
    let plan = FinalPlan { timeline_samples: 9, tracks: vec![track(7, "Ada", 2)] };
    let written = vec![Err("gone".to_string())];
    finish_recording(&mut store, &mut recording, &plan, &written, DAY);
    let text = session_text(&recording, &session, &everyone, Some((&plan, &written))).unwrap();
    assert_eq!(text, pretty(&text));
    assert!(text.contains("\"final_file\": \"tracks/Ada.wav\""));
    assert!(text.contains("\"segments\": 2,\n      \"warnings\": [\n        \"gone\"\n      ]"));
    assert!(text.contains("\"status\": \"completed\",\n"));
    assert!(text.contains("\"stopped_at\": \"2023-11-14T22:13:20Z\",\n"));
    assert!(text.ends_with("\"timeline_samples\": 9\n}"));
    recording.started_at_utc = i128::MAX;
    assert_eq!(session_text(&recording, &session, &everyone, None), None);
    let lowest = RoomSession { id: 5, generation: i64::MIN, host_participant_id: None };
    recording.started_at_utc = DAY;
    let text = session_text(&recording, &lowest, &vec![], None).unwrap();
    assert!(text.contains("\"room_generation\": -9223372036854775808,"));
    assert!(text.contains("\"participants\": [],"));
    assert_eq!(text, pretty(&text));
}

#[test]
fn segment_is_written_down() {
    let end =
        SegmentEnd { first_ns: 1, last_ns: 2, timeline_start: 3, samples: 4, discarded: 5 };
    let text = segment_text("TR", &end);
    let compact = "{\"first_frame_at_ns\":1,\"last_frame_at_ns\":2,\"sample_count\":4,\"status\":\"closed\",\"timeline_start_sample\":3,\"track_sid\":\"TR\"}";
    assert_eq!(text, pretty(compact));
    assert!(text.starts_with("{\n  \"first_frame_at_ns\": 1,\n"));
}

#[test]
fn events_are_logged_with_whom_they_are_about() {
    let event = document(
        "{\"id\":\"EV\",\"event\":\"track_published\",\"participant\":{\"identity\":\"p_00000000000000000000000000000007\"},\"track\":{\"sid\":\"TR\"}}",
    )
    .unwrap();
    assert_eq!(
        logged_event(&event, "now"),
        format!(
            "{{\"at\":\"now\",\"livekit_event\":\"EV\",\"participant_id\":\"{}\",\"track_sid\":\"TR\",\"type\":\"track_published\"}}",
            uuid_text(7)
        )
    );
    let event = document("{\"id\":\"EV\",\"event\":\"room_started\"}").unwrap();
    assert_eq!(
        logged_event(&event, "now"),
        "{\"at\":\"now\",\"livekit_event\":\"EV\",\"type\":\"room_started\"}"
    );
}

#[test]
fn log_holds_its_events_line_by_line() {
    let events = [
        recording_event("recording_started", "now"),
        left_event(7, "a\nb"),
        livekit_event("track_published", "EV", Some(7), Some("TR"), "now"),
        egress_started_event(7, "TR", "EG", "now"),
        segment_closed_event(7, "TR", 3, "now"),
    ];
    let mut log = "old\n".to_string();
    for event in &events {
        append_event(&mut log, event);
    }
    assert!(log.ends_with('\n'));
    let lines: Vec<&str> = log.lines().collect();
    assert_eq!(lines[0], "old");
    assert_eq!(lines[1..], events);
    assert!(matches!(lookup(lines[2], "at"), FoundMember::Text(at) if at == "a\nb"));
    assert!(matches!(lookup(lines[5], "samples"), FoundMember::Whole(3)));
}

#[test]
fn stopped_recording_stays_as_it_is() {
    let (mut store, mut recording) = opened();
    recording.status = RecordingStatus::Completed;
    recording.version = i64::MAX;
    store.update_recording(&recording);
    let step = begin_stop(&mut store, 99).unwrap();
    assert!(matches!(step, StopStep::Already(kept) if kept.version == i64::MAX));
    assert_eq!(begin_stop(&mut store, 1).unwrap_err(), Refusal::RecordingNotFound);
}

#[test]
fn resuming_rotates_the_token() {
    let settings = Settings {
        livekit_url: String::new(),
        egress_url: String::new(),
        callback_base_url: String::new(),
        api_key: "key".to_string(),
        api_secret: "secret".to_string(),
        host_password: None,
    };
    let mut store = Store::new();
    let joined = join(&mut store, &settings, None, "Ada", &draw()).unwrap();
    let resumed = resume(&mut store, &settings, &joined.resume_token, &draw()).unwrap();
    assert_eq!(resumed.participant_id, joined.participant_id);
    assert_ne!(resumed.resume_token, joined.resume_token);
    assert_eq!(
        resume_token_participant_id(&resumed.resume_token),
        Some(joined.participant_id)
    );
    assert_eq!(
        resume(&mut store, &settings, &joined.resume_token, &draw()).unwrap_err(),
        Refusal::InvalidResumeToken
    );
    let again = resume(&mut store, &settings, &resumed.resume_token, &draw()).unwrap();
    assert_eq!(again.participant_id, joined.participant_id);
    assert_ne!(again.connection_generation, resumed.connection_generation);
}

#[test]
fn indented_parts_are_those_of_serde_json() {
    assert_eq!(IndentedWriter::new(0).finish(), "{}");
    assert_eq!(list_text(&vec![], 2), "[]");
    let inner = list_text(&vec!["1".to_string(), "true".to_string()], 1);
    let mut writer = IndentedWriter::new(0);
    writer.raw("a", &inner);
    writer.text("b", "x\"\n");
    writer.number("c", u64::MAX);
    let text = writer.finish();
    assert_eq!(text, pretty(&text));
    assert_eq!(inner, "[\n    1,\n    true\n  ]");
}

#[test]
fn log_gains_one_line_for_each_event() {
    let mut log = String::new();
    append_event(&mut log, "{}");
    append_event(&mut log, "[]");
    assert_eq!(log, "{}\n[]\n");
}
