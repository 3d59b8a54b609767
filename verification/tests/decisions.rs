use std::io::Cursor;

use voice_room::auth::{
    media_claims, participant_grant, server_grant, session_claims, session_of, vouches,
    WebhookRejection,
};
use voice_room::clock::instant_from_parts;
use voice_room::domain::{
    ConnectionState, Participant, ParticipantRole, RecordingStatus, TrackSegmentStatus,
};
use voice_room::egress::{egress_message, signed_and_fresh, EgressQuery};
use voice_room::events::{event_source, push_microphones, EventSource};
use voice_room::ids::{livekit_identity, uuid_text};
use voice_room::json::{FoundMember, Json};
use voice_room::model::StoreError;
use voice_room::pcm::{PcmReceiver, SegmentEnd, SegmentProgress};
use voice_room::recording::{
    advance, end_stream, fail_stream, find_stream_target, note_egress, note_progress,
    open_recording, plan_final, plan_track, segments_for_participant, session_snapshot, stream_wait,
};
use voice_room::reply::Refusal;
use voice_room::room::{
    claim_host_checked, joining_participant, let_in, participant_at, resuming_participant, Fresh,
};
use voice_room::store::Store;
use voice_room::wav::{finalize_wav, TrackStream};
use voice_room::webhook::{handle_event, WebhookOutcome};

const SECOND: i128 = 1_000_000_000;

fn text(s: &str) -> Json {
    Json::Text(s.to_string())
}

fn found(s: &str) -> FoundMember {
    FoundMember::Text(s.to_string())
}

fn object(members: Vec<(&str, Json)>) -> Json {
    Json::Object(members.into_iter().map(|(n, v)| (n.to_string(), v)).collect())
}

fn fresh(n: u128, now: i128) -> Fresh {
    Fresh {
        participant_id: n,
        session_id: n + 1,
        generation: n + 2,
        token_tail: "tail".to_string(),
        salt: "salt".to_string(),
        now,
    }
}

#[test]
fn instants_are_made_of_parts() {
    assert_eq!(instant_from_parts(1, 5), SECOND + 5);
    assert_eq!(instant_from_parts(-1, 0), -SECOND);
}

#[test]
fn session_is_read_from_its_claims() {
    let good = || (found("k"), FoundMember::Whole(1), found("voice-chat-session"));
    let (iss, exp, purpose) = good();
    assert_eq!(session_of(&iss, &exp, &purpose, Some(1), Some(2), "k"), Some((1, 2)));
    assert_eq!(session_of(&iss, &exp, &purpose, None, Some(2), "k"), None);
    assert_eq!(session_of(&iss, &exp, &purpose, Some(1), None, "k"), None);
    assert_eq!(session_of(&iss, &exp, &purpose, Some(1), Some(2), "other"), None);
    assert_eq!(session_of(&iss, &FoundMember::Other, &purpose, Some(1), Some(2), "k"), None);
    assert_eq!(session_of(&iss, &exp, &found("x"), Some(1), Some(2), "k"), None);
    assert_eq!(session_of(&FoundMember::Nothing, &exp, &purpose, Some(1), Some(2), "k"), None);
}

#[test]
fn claims_are_written_in_order() {
    assert_eq!(
        session_claims("key", 1, 99, 2),
        format!(
            "{{\"iss\":\"key\",\"sub\":\"{}\",\"exp\":99,\"generation\":\"{}\",\"purpose\":\"voice-chat-session\"}}",
            uuid_text(1),
            uuid_text(2)
        )
    );
    assert_eq!(
        media_claims("key", "p_1", 7, &participant_grant(), Some("m")),
        "{\"iss\":\"key\",\"sub\":\"p_1\",\"exp\":7,\"video\":{\"room\":\"main\",\"roomJoin\":true,\"canPublish\":true,\"canSubscribe\":true,\"canPublishData\":false,\"roomAdmin\":false,\"roomRecord\":false},\"metadata\":\"m\"}"
    );
    assert_eq!(
        media_claims("key", "s", 7, &server_grant(), None),
        "{\"iss\":\"key\",\"sub\":\"s\",\"exp\":7,\"video\":{\"room\":\"main\",\"roomJoin\":false,\"canPublish\":false,\"canSubscribe\":false,\"canPublishData\":false,\"roomAdmin\":true,\"roomRecord\":true}}"
    );
}

#[test]
fn digest_must_be_that_of_the_body() {
    let digest = vec![1, 2, 3];
    assert_eq!(vouches(&found("k"), Some(Some(vec![1, 2, 3])), &digest, "k"), Ok(()));
    assert_eq!(
        vouches(&found("k"), Some(Some(vec![1, 2])), &digest, "k"),
        Err(WebhookRejection::HashMismatch)
    );
    assert_eq!(
        vouches(&found("k"), Some(None), &digest, "k"),
        Err(WebhookRejection::UnreadableHash)
    );
    assert_eq!(
        vouches(&found("k"), None, &digest, "k"),
        Err(WebhookRejection::InvalidToken)
    );
    let listed = FoundMember::Texts(vec!["x".to_string(), "k".to_string()]);
    assert_eq!(vouches(&listed, Some(Some(vec![1, 2, 3])), &digest, "k"), Ok(()));
    assert_eq!(
        vouches(&listed, Some(Some(vec![1, 2, 3])), &digest, "y"),
        Err(WebhookRejection::InvalidToken)
    );
    assert_eq!(
        vouches(&FoundMember::Nothing, Some(Some(vec![1, 2, 3])), &digest, "k"),
        Err(WebhookRejection::InvalidToken)
    );
}

#[test]
fn callback_message_covers_everything() {
    assert_eq!(
        egress_message(1, "TR", 2, 30),
        format!("{}:TR:{}:30", uuid_text(1), uuid_text(2))
    );
    let query = EgressQuery { participant_id: 2, exp: 30, sig: "s".to_string() };
    assert!(signed_and_fresh("s", &query, 30));
    assert!(!signed_and_fresh("s", &query, 31));
    assert!(!signed_and_fresh("t", &query, 30));
}

#[test]
fn proved_host_keeps_the_identity() {
    let mut store = Store::new();
    assert_eq!(joining_participant(&store, true, "Ada", &fresh(10, 5)).id, 10);
    store.load_host(7, "hash".to_string());
    let unproved = joining_participant(&store, false, "Ada", &fresh(10, 5));
    assert_eq!(unproved.id, 10);
    assert_eq!(unproved.role, ParticipantRole::Participant);
    let unknown = joining_participant(&store, true, "Ada", &fresh(10, 5));
    assert_eq!(unknown.id, 7);
    assert_eq!(unknown.role, ParticipantRole::Host);
    assert_eq!(unknown.livekit_identity, livekit_identity(7));
    store.upsert_participant(&participant_at(7, "Old", ParticipantRole::Participant, 1));
    let known = joining_participant(&store, true, "Ada", &fresh(10, 5));
    assert_eq!(known.nickname, "Ada");
    assert_eq!(known.created_at, 1);
    assert_eq!(known.last_seen_at, 5);
    assert_eq!(known.role, ParticipantRole::Participant);
}

#[test]
fn accepted_token_of_a_known_participant_resumes() {
    let mut store = Store::new();
    assert_eq!(
        resuming_participant(&store, None, true).unwrap_err(),
        Refusal::InvalidResumeToken
    );
    assert_eq!(
        resuming_participant(&store, Some(7), true).unwrap_err(),
        Refusal::InvalidResumeToken
    );
    store.set_resume_credential(7, "hash", 0);
    assert_eq!(
        resuming_participant(&store, Some(7), false).unwrap_err(),
        Refusal::InvalidResumeToken
    );
    assert_eq!(
        resuming_participant(&store, Some(7), true).unwrap_err(),
        Refusal::IdentityGone
    );
    store.upsert_participant(&participant_at(7, "Ada", ParticipantRole::Participant, 1));
    assert_eq!(resuming_participant(&store, Some(7), true).unwrap().nickname, "Ada");
}

#[test]
fn whoever_is_let_in_is_connecting() {
    let mut store = Store::new();
    let ada: Participant = participant_at(7, "Ada", ParticipantRole::Host, 1);
    assert_eq!(let_in(&mut store, &ada, None, &fresh(10, 2)), Err(Refusal::Internal));
    assert!(store.connection(7).is_none());
    assert_eq!(
        let_in(&mut store, &ada, Some("hash"), &fresh(10, 2)),
        Ok(ParticipantRole::Participant)
    );
    assert_eq!(store.connection_state(7, 12), Some(ConnectionState::Connecting));
    assert_eq!(store.resume_credential(7).as_deref(), Some("hash"));
    assert_eq!(store.participant(7).unwrap().role, ParticipantRole::Participant);
    store.claim_session_host(7, 99, 3).unwrap();
    assert_eq!(
        let_in(&mut store, &ada, Some("hash"), &fresh(20, 4)),
        Ok(ParticipantRole::Host)
    );
}

#[test]
fn claim_goes_by_the_password_check() {
    let mut store = Store::new();
    store.begin_connection(7, 1, 0);
    let identity = Some((7, 1));
    assert_eq!(
        claim_host_checked(&mut store, identity, None, 5, 0),
        Err(Refusal::NoHostPassword)
    );
    assert_eq!(
        claim_host_checked(&mut store, identity, Some(false), 5, 0),
        Err(Refusal::HostRequired)
    );
    assert_eq!(claim_host_checked(&mut store, identity, Some(true), 5, 0), Ok(()));
    assert_eq!(store.room_host(), Some(7));
}

#[test]
fn events_are_handled_by_their_source() {
    let mut store = Store::new();
    store.begin_connection(7, 1, 0);
    let joined = object(vec![("event", text("participant_joined")), ("id", text("EV_1"))]);
    assert_eq!(
        event_source(&joined),
        EventSource { participant: None, generation: None }
    );
    let source = EventSource { participant: Some(7), generation: Some(1) };
    assert!(matches!(
        handle_event(&mut store, &joined, source, 5),
        WebhookOutcome::NotRecording
    ));
    assert_eq!(store.connection_state(7, 1), Some(ConnectionState::Online));
    let left = object(vec![("event", text("participant_left")), ("id", text("EV_2"))]);
    let stale = EventSource { participant: Some(7), generation: Some(2) };
    handle_event(&mut store, &left, stale, 6);
    assert_eq!(store.connection_state(7, 1), Some(ConnectionState::Online));
    assert!(matches!(
        handle_event(&mut store, &left, source, 7),
        WebhookOutcome::Duplicate
    ));
}

#[test]
fn microphones_are_added_to_a_list() {
    let microphone = object(vec![
        ("sid", text("TR")),
        ("type", text("audio")),
        ("source", Json::Int(1)),
    ]);
    let nameless = object(vec![("type", text("audio")), ("source", Json::Int(1))]);
    let mut tracks = vec![(1, "TR_0".to_string())];
    push_microphones(2, &vec![microphone, nameless, Json::Null], &mut tracks);
    assert_eq!(tracks, vec![(1, "TR_0".to_string()), (2, "TR".to_string())]);
}

#[test]
fn stream_is_followed_to_its_end() {
    let mut store = Store::new();
    store.ensure_active_room_session(5, 0).unwrap();
    let mut recording = open_recording(&mut store, 99, "/rec", 0).unwrap();
    advance(&mut store, &mut recording, RecordingStatus::Recording);
    plan_track(&mut store, &recording, 7, "TR", 1).unwrap();
    assert_eq!(
        find_stream_target(&store, false, 99, "TR", 7).unwrap_err(),
        Refusal::InvalidSignature
    );
    assert_eq!(
        find_stream_target(&store, true, 99, "TR", 8).unwrap_err(),
        Refusal::UnknownTrack
    );
    note_egress(&mut store, 99, "TR", Some("EG"));
    let row = find_stream_target(&store, true, 99, "TR", 7).unwrap();
    note_progress(
        &mut store,
        99,
        "TR",
        &SegmentProgress { first_ns: 1, timeline_start: 2, samples: 3 },
    );
    let kept = store.segment(99, "TR").unwrap();
    assert_eq!(kept.segment.status, TrackSegmentStatus::Writing);
    assert_eq!(kept.segment.sample_count, 3);
    end_stream(
        &mut store,
        99,
        "TR",
        &SegmentEnd { first_ns: 1, last_ns: 9, timeline_start: 2, samples: 4, discarded: 0 },
    );
    let kept = store.segment(99, "TR").unwrap();
    assert_eq!(kept.segment.status, TrackSegmentStatus::Closed);
    assert_eq!(kept.segment.last_frame_at_ns, Some(9));
    fail_stream(&mut store, &row, None);
    let kept = store.segment(99, "TR").unwrap();
    assert_eq!(kept.segment.status, TrackSegmentStatus::Failed);
    assert_eq!(kept.egress_id.as_deref(), Some("EG"));
    assert_eq!(store.segments(99).len(), 1);
}

#[test]
fn broken_stream_keeps_what_came() {
    let mut store = Store::new();
    store.ensure_active_room_session(5, 0).unwrap();
    store.upsert_participant(&participant_at(7, "Ada", ParticipantRole::Participant, 1));
    let mut recording = open_recording(&mut store, 99, "/rec", 0).unwrap();
    advance(&mut store, &mut recording, RecordingStatus::Recording);
    plan_track(&mut store, &recording, 7, "TR", 1).unwrap();
    let row = store.segment(99, "TR").unwrap();
    let mut receiver = PcmReceiver::new(0, 0, row.segment.sample_count);
    let step = receiver.on_binary(&[1, 0, 1, 0], 500).unwrap();
    note_progress(&mut store, 99, "TR", &step.opened.unwrap());
    fail_stream(&mut store, &row, Some(&receiver.finish(900)));
    let kept = store.segment(99, "TR").unwrap();
    assert_eq!(kept.segment.status, TrackSegmentStatus::Closed);
    assert_eq!(kept.segment.sample_count, 1);
    assert_eq!(kept.segment.last_frame_at_ns, Some(900));
    let plan = plan_final(&store, &recording, 0);
    assert_eq!(plan.tracks.len(), 1);
    assert_eq!(plan.tracks[0].segments.len(), 1);
}

#[test]
fn track_is_planned_once() {
    let mut store = Store::new();
    store.ensure_active_room_session(5, 0).unwrap();
    let recording = open_recording(&mut store, 99, "/rec", 0).unwrap();
    assert!(plan_track(&mut store, &recording, 7, "TR", 1).unwrap().is_some());
    assert!(plan_track(&mut store, &recording, 8, "TR", 2).unwrap().is_none());
    assert_eq!(store.segments(99).len(), 1);
    assert_eq!(segments_for_participant(&store, 99, 7), 1);
    assert_eq!(segments_for_participant(&store, 99, 8), 0);
}

#[test]
fn streams_are_waited_for_up_to_ten_seconds() {
    assert_eq!(stream_wait(true, 0), Some(100));
    assert_eq!(stream_wait(true, 9_999), Some(100));
    assert_eq!(stream_wait(true, 10_000), None);
    assert_eq!(stream_wait(false, 0), None);
}

#[test]
fn snapshot_names_the_room_session() {
    let mut store = Store::new();
    store.ensure_active_room_session(5, 0).unwrap();
    store.upsert_participant(&participant_at(7, "Ada", ParticipantRole::Participant, 1));
    open_recording(&mut store, 99, "/rec", 0).unwrap();
    let (session, participants) = session_snapshot(&store, 99).unwrap();
    assert_eq!(session.id, 5);
    assert_eq!(session.generation, 1);
    assert_eq!(participants.len(), 1);
    assert_eq!(session_snapshot(&store, 1).unwrap_err(), StoreError::Missing);
}

#[test]
fn disjoint_segments_lie_at_the_same_place_either_way() {
    let first = vec![1u8, 0, 2, 0];
    let second = vec![3u8, 0];
    let file = finalize_wav(&vec![(1, first.clone()), (4, second.clone())], 6).unwrap();
    let in_memory: Vec<i16> = hound::WavReader::new(Cursor::new(file))
        .unwrap()
        .into_samples::<i16>()
        .collect::<Result<_, _>>()
        .unwrap();
    let mut streamed: Vec<i16> = Vec::new();
    let mut stream = TrackStream::new(6);
    for (start, data) in [(1, &first), (4, &second)] {
        streamed.extend(vec![0i16; stream.begin_segment(start) as usize]);
        streamed.extend(stream.feed(data));
    }
    streamed.extend(vec![0i16; stream.finish() as usize]);
    assert_eq!(in_memory, vec![0, 1, 2, 0, 3, 0]);
    assert_eq!(streamed, in_memory);
}
