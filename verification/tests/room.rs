use voice_room::auth::{resume_token_participant_id, session_identity};
use voice_room::clock::utc_now;
use voice_room::crypto::hash_secret;
use voice_room::domain::{ConnectionState, Participant, ParticipantRole, RecordingStatus};
use voice_room::ids::livekit_identity;
use voice_room::recording::{advance, open_recording};
use voice_room::reply::Refusal;
use voice_room::room::{
    claim_host, close_empty_room, configured_password, draw, epoch_seconds, issue_connection, join,
    leave, look_after, new_participant, resume, state_view, Fresh, LifecycleStep, Settings,
};
use voice_room::store::Store;

const SECOND: i128 = 1_000_000_000;

fn settings() -> Settings {
    Settings {
        livekit_url: "ws://livekit".to_string(),
        egress_url: "http://livekit".to_string(),
        callback_base_url: "ws://server".to_string(),
        api_key: "devkey".to_string(),
        api_secret: "a shared secret".to_string(),
        host_password: Some("sesame".to_string()),
    }
}

fn fresh(n: u128, now: i128) -> Fresh {
    Fresh {
        participant_id: n,
        session_id: n + 1,
        generation: n + 2,
        token_tail: format!("tail{n}"),
        salt: draw().salt,
        now,
    }
}

#[test]
fn newcomer_is_admitted() {
    let mut store = Store::new();
    let settings = settings();
    let fresh = draw();
    let reply = join(&mut store, &settings, None, "  Ada Lovelace\u{3000}", &fresh).unwrap();
    assert_eq!(reply.nickname, "Ada Lovelace");
    assert_eq!(reply.participant_id, fresh.participant_id);
    assert_eq!(reply.role, ParticipantRole::Participant);
    assert_eq!(reply.livekit_url, "ws://livekit");
    assert_eq!(reply.connection_generation, fresh.generation);
    assert!(reply.recording_state.is_none());
    assert_eq!(
        session_identity(
            Some(&format!("Bearer {}", reply.session_token)),
            &settings.api_key,
            &settings.api_secret
        ),
        Some((fresh.participant_id, fresh.generation))
    );
    let known = store.participant(fresh.participant_id).unwrap();
    assert_eq!(known.livekit_identity, livekit_identity(fresh.participant_id));
    assert_eq!(
        store.connection_state(fresh.participant_id, fresh.generation),
        Some(ConnectionState::Connecting)
    );
    assert_eq!(store.active_room_session().unwrap().generation, 1);
    assert_eq!(resume_token_participant_id(&reply.resume_token), Some(fresh.participant_id));
}

#[test]
fn nickname_has_one_to_eighty_characters() {
    let mut store = Store::new();
    let settings = settings();
    for nickname in ["", "   \t\n", &"x".repeat(81)] {
        assert_eq!(
            join(&mut store, &settings, None, nickname, &fresh(10, 0)).unwrap_err(),
            Refusal::InvalidNickname
        );
    }
    assert!(store.all_participants().is_empty());
    assert!(join(&mut store, &settings, None, &"\u{e9}".repeat(80), &fresh(20, 0)).is_ok());
    assert!(join(&mut store, &settings, None, "x", &fresh(30, 0)).is_ok());
}

#[test]
fn white_space_is_that_of_unicode() {
    for c in (0..=0x10ffffu32).filter_map(char::from_u32) {
        assert_eq!(voice_room::text::is_white_space(c), c.is_whitespace());
    }
}

#[test]
fn host_of_an_older_installation_keeps_the_identity() {
    let mut store = Store::new();
    let settings = settings();
    store.load_host(7, hash_secret("old secret").unwrap());
    let reply =
        join(&mut store, &settings, Some("Bearer old secret"), "Boss", &fresh(10, 5)).unwrap();
    assert_eq!(reply.participant_id, 7);
    assert_eq!(store.participant(7).unwrap().created_at, 5);
    let again =
        join(&mut store, &settings, Some("Bearer old secret"), "Chief", &fresh(20, 9)).unwrap();
    assert_eq!(again.participant_id, 7);
    assert_eq!(again.nickname, "Chief");
    assert_eq!(store.participant(7).unwrap().created_at, 5);
    assert_eq!(store.participant(7).unwrap().last_seen_at, 9);
    let other = join(&mut store, &settings, Some("Bearer wrong"), "Guest", &fresh(30, 9)).unwrap();
    assert_eq!(other.participant_id, 30);
}

#[test]
fn resuming_keeps_the_identity_and_replaces_the_token() {
    let mut store = Store::new();
    let settings = settings();
    let first = join(&mut store, &settings, None, "Ada", &fresh(10, 0)).unwrap();
    let second = resume(&mut store, &settings, &first.resume_token, &fresh(50, 3)).unwrap();
    assert_eq!(second.participant_id, 10);
    assert_eq!(second.nickname, "Ada");
    assert_eq!(second.connection_generation, 52);
    assert_ne!(second.resume_token, first.resume_token);
    assert!(store.connection_state(10, 12).is_none());
    assert_eq!(store.connection_state(10, 52), Some(ConnectionState::Connecting));
    assert_eq!(
        resume(&mut store, &settings, &first.resume_token, &fresh(60, 4)).unwrap_err(),
        Refusal::InvalidResumeToken
    );
    assert!(resume(&mut store, &settings, &second.resume_token, &fresh(70, 5)).is_ok());
}

#[test]
fn resume_token_must_be_known() {
    let mut store = Store::new();
    let settings = settings();
    for token in ["", "no token", "01234567-89ab-4def-8123-456789abcdef.tail"] {
        assert_eq!(
            resume(&mut store, &settings, token, &fresh(10, 0)).unwrap_err(),
            Refusal::InvalidResumeToken
        );
    }
    let token = "00000000-0000-0000-0000-000000000009.tail";
    store.set_resume_credential(9, &hash_secret(token).unwrap(), 0);
    assert_eq!(
        resume(&mut store, &settings, token, &fresh(10, 0)).unwrap_err(),
        Refusal::IdentityGone
    );
}

#[test]
fn leaving_keeps_the_resume_token() {
    let mut store = Store::new();
    let settings = settings();
    let first = join(&mut store, &settings, None, "Ada", &fresh(10, 0)).unwrap();
    assert!(leave(&mut store, Some((10, 12)), 1).unwrap().is_none());
    assert_eq!(store.connection_state(10, 12), Some(ConnectionState::Left));
    let second = resume(&mut store, &settings, &first.resume_token, &fresh(50, 3)).unwrap();
    assert_eq!(second.participant_id, 10);
}

#[test]
fn leaving_is_logged_with_the_recording() {
    let mut store = Store::new();
    let settings = settings();
    join(&mut store, &settings, None, "Ada", &fresh(10, 0)).unwrap();
    let recording = open_recording(&mut store, 99, "/recordings/rec", 1).unwrap();
    assert_eq!(leave(&mut store, None, 2).unwrap_err(), Refusal::ParticipantRequired);
    assert!(leave(&mut store, Some((10, 1)), 2).unwrap().is_none());
    let logged = leave(&mut store, Some((10, 12)), 2).unwrap().unwrap();
    assert_eq!(logged.id, recording.id);
}

#[test]
fn failed_hash_is_an_internal_error() {
    let mut store = Store::new();
    let settings = settings();
    let mut bad = fresh(10, 0);
    bad.salt = "!".to_string();
    assert_eq!(
        join(&mut store, &settings, None, "Ada", &bad).unwrap_err(),
        Refusal::Internal
    );
    assert!(store.connection(10).is_none());
}

#[test]
fn role_follows_the_room_session() {
    let mut store = Store::new();
    let settings = settings();
    join(&mut store, &settings, None, "Ada", &fresh(10, 0)).unwrap();
    store.claim_session_host(10, 500, 0).unwrap();
    let ada = store.participant(10).unwrap();
    let reply = issue_connection(&mut store, &settings, ada, &fresh(20, 1)).unwrap();
    assert_eq!(reply.role, ParticipantRole::Host);
    let mut impostor: Participant = new_participant("Eve", ParticipantRole::Host);
    impostor.id = 40;
    let reply = issue_connection(&mut store, &settings, impostor, &fresh(30, 1)).unwrap();
    assert_eq!(reply.role, ParticipantRole::Participant);
    assert_eq!(store.participant(40).unwrap().role, ParticipantRole::Participant);
}

#[test]
fn join_reports_the_recording() {
    let mut store = Store::new();
    let settings = settings();
    join(&mut store, &settings, None, "Ada", &fresh(10, 0)).unwrap();
    let mut recording = open_recording(&mut store, 99, "/recordings/rec", 1).unwrap();
    advance(&mut store, &mut recording, RecordingStatus::Recording);
    let reply = join(&mut store, &settings, None, "Bob", &fresh(20, 2)).unwrap();
    assert_eq!(reply.recording_state, Some(RecordingStatus::Recording));
}

#[test]
fn host_is_claimed_with_the_password() {
    let mut store = Store::new();
    let mut settings = settings();
    join(&mut store, &settings, None, "Ada", &fresh(10, 0)).unwrap();
    join(&mut store, &settings, None, "Bob", &fresh(20, 0)).unwrap();
    let ada = Some((10, 12));
    let bob = Some((20, 22));
    assert_eq!(
        claim_host(&mut store, &settings, None, "sesame", 1, 1),
        Err(Refusal::ParticipantRequired)
    );
    assert_eq!(
        claim_host(&mut store, &settings, Some((10, 999)), "sesame", 1, 1),
        Err(Refusal::HostRequired)
    );
    assert_eq!(
        claim_host(&mut store, &settings, ada, "wrong", 1, 1),
        Err(Refusal::HostRequired)
    );
    assert_eq!(claim_host(&mut store, &settings, ada, "sesame", 1, 1), Ok(()));
    assert_eq!(claim_host(&mut store, &settings, ada, "sesame", 1, 1), Ok(()));
    assert_eq!(
        claim_host(&mut store, &settings, bob, "sesame", 1, 1),
        Err(Refusal::HostTaken)
    );
    assert_eq!(store.room_host(), Some(10));
    assert_eq!(store.participant(10).unwrap().role, ParticipantRole::Host);
    settings.host_password = None;
    assert_eq!(
        claim_host(&mut store, &settings, bob, "sesame", 1, 1),
        Err(Refusal::NoHostPassword)
    );
}

#[test]
fn claim_fails_where_no_session_can_be_opened() {
    let mut store = Store::new();
    let settings = settings();
    store.ensure_active_room_session(6, 0).unwrap();
    store.close_active_room_session_if_empty(0).unwrap();
    store.begin_connection(10, 12, 0);
    assert_eq!(
        claim_host(&mut store, &settings, Some((10, 12)), "sesame", 6, 1),
        Err(Refusal::Internal)
    );
}

#[test]
fn room_is_shown_to_participants() {
    let mut store = Store::new();
    let settings = settings();
    assert_eq!(
        state_view(&mut store, Some((10, 12)), 1, 0).unwrap_err(),
        Refusal::ParticipantRequired
    );
    join(&mut store, &settings, None, "Ada", &fresh(10, 0)).unwrap();
    join(&mut store, &settings, None, "Bob", &fresh(20, 5)).unwrap();
    store.mark_connection_online(10, 12, None, 1);
    let state = state_view(&mut store, Some((10, 12)), 1, 10).unwrap();
    assert_eq!(state.participants.len(), 2);
    assert_eq!(state.participants[0].participant.nickname, "Ada");
    assert_eq!(state.participants[0].connection_state, ConnectionState::Online);
    assert_eq!(state.room_generation, 1);
    assert!(!state.has_host);
    assert!(state.recording.is_none());
    let state = state_view(&mut store, Some((10, 12)), 1, 100 * SECOND).unwrap();
    assert_eq!(state.participants.len(), 1);
    store.claim_session_host(10, 500, 0).unwrap();
    assert!(state_view(&mut store, Some((10, 12)), 1, 100 * SECOND).unwrap().has_host);
}

#[test]
fn empty_room_is_closed_after_a_minute() {
    let mut store = Store::new();
    let settings = settings();
    join(&mut store, &settings, None, "Ada", &fresh(10, 0)).unwrap();
    store.mark_connection_online(10, 12, None, 1);
    assert_eq!(look_after(&mut store, 500 * SECOND), LifecycleStep::Wait);
    assert!(store.room_empty_since().is_none());
    leave(&mut store, Some((10, 12)), 500 * SECOND).unwrap();
    assert_eq!(look_after(&mut store, 501 * SECOND), LifecycleStep::Wait);
    assert_eq!(store.room_empty_since(), Some(501 * SECOND));
    assert_eq!(look_after(&mut store, 561 * SECOND - 1), LifecycleStep::Wait);
    assert_eq!(look_after(&mut store, 561 * SECOND), LifecycleStep::Close(None));
    let closed = close_empty_room(&mut store, 561 * SECOND).unwrap();
    assert_eq!(closed.generation, 1);
    assert!(store.room_empty_since().is_none());
    assert!(store.active_room_session().is_none());
    let reply = join(&mut store, &settings, None, "Bob", &fresh(30, 600 * SECOND)).unwrap();
    assert_eq!(reply.role, ParticipantRole::Participant);
    assert_eq!(store.active_room_session().unwrap().generation, 2);
}

#[test]
fn closing_stops_the_recording_first() {
    let mut store = Store::new();
    store.ensure_active_room_session(5, 0).unwrap();
    let mut recording = open_recording(&mut store, 99, "/recordings/rec", 0).unwrap();
    assert_eq!(look_after(&mut store, 0), LifecycleStep::Wait);
    assert_eq!(look_after(&mut store, 60 * SECOND), LifecycleStep::Close(Some(99)));
    advance(&mut store, &mut recording, RecordingStatus::Stopping);
    assert_eq!(look_after(&mut store, 60 * SECOND), LifecycleStep::Close(None));
}

#[test]
fn whoever_comes_back_keeps_the_room() {
    let mut store = Store::new();
    let settings = settings();
    store.ensure_active_room_session(5, 0).unwrap();
    look_after(&mut store, 0);
    join(&mut store, &settings, None, "Ada", &fresh(10, 30 * SECOND)).unwrap();
    assert_eq!(look_after(&mut store, 61 * SECOND), LifecycleStep::Wait);
    assert!(store.room_empty_since().is_none());
    assert!(close_empty_room(&mut store, 61 * SECOND).is_none());
    assert!(store.active_room_session().is_some());
}

#[test]
fn first_password_that_is_set_is_in_force() {
    let text = |s: &str| Some(s.to_string());
    assert_eq!(configured_password(text("a"), text("b")), text("a"));
    assert_eq!(configured_password(None, text("b")), text("b"));
    assert_eq!(configured_password(text(""), text("b")), None);
    assert_eq!(configured_password(None, text("")), None);
    assert_eq!(configured_password(None, None), None);
}

#[test]
fn fresh_values_differ() {
    let first = draw();
    let second = draw();
    assert_ne!(first.participant_id, second.participant_id);
    assert_ne!(first.token_tail, second.token_tail);
    assert_ne!(first.salt, second.salt);
    assert_eq!(first.token_tail.len(), 48);
    assert_eq!(epoch_seconds(1_999_999_999), 1);
    assert!(epoch_seconds(utc_now()) > 1_600_000_000);
}
