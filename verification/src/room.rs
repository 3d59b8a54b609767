//! Joining, resuming, leaving and hosting the room, and the room's life.

use vstd::prelude::*;
use vstd::utf8::encode_utf8;

use crate::auth::{
    bearer, host_ok, holds_host_secret, may_act, participant_claims, participant_token,
    participates, resume_token, resume_token_participant_id, resume_token_text,
    resumed_participant, session_members, session_token, str_of, MEDIA_TOKEN_SECONDS,
    SESSION_TOKEN_SECONDS,
};
use crate::clock::{utc_now, MAX_INSTANT, NANOS_PER_SECOND};
use crate::crypto::{
    argon2_accepts, argon2_text, check_password, good_salt, hash_with_salt, password_matches, random_salt,
    random_token, verify_secret,
};
use crate::domain::{
    open_for_tracks, text_of, Participant, ParticipantModel, ParticipantRole, ParticipantView,
    RecordingSession, RecordingStatus, RoomSession,
};
use crate::ids::{
    hyphenated_text, identity_text, is_random_id, livekit_identity, new_id, simple_text,
};
use crate::json::{json_object, json_string};
use crate::jwt::{jwt_claims, jwt_text};
use crate::model::StoreModel;
use crate::reply::Refusal;
use crate::store::{schedulable, Store};
use crate::text::{decimal_text, trim, trim_both, white_space};

verus! {

/// How long the room may stay empty before its session is closed: 60 s.
pub const EMPTY_GRACE_NS: i128 = 60_000_000_000;

/// How many random characters a resume token ends in.
pub const TOKEN_TAIL: usize = 48;

/// What the server is configured with.
#[derive(Debug)]
pub struct Settings {
    pub livekit_url: String,
    pub egress_url: String,
    pub callback_base_url: String,
    pub api_key: String,
    pub api_secret: String,
    pub host_password: Option<String>,
}

/// The host password that is in force: the first setting that is there, unless it is empty.
pub open spec fn password_in_force(
    first: Option<Seq<char>>,
    second: Option<Seq<char>>,
) -> Option<Seq<char>> {
    let given = match first {
        Some(password) => Some(password),
        None => second,
    };
    match given {
        Some(password) => if password.len() == 0 {
            None
        } else {
            Some(password)
        },
        None => None,
    }
}

/// The host password that is in force.
pub fn configured_password(first: Option<String>, second: Option<String>) -> (password: Option<
    String,
>)
    ensures
        text_of(password) == password_in_force(text_of(first), text_of(second)),
{
    let given = match first {
        Some(password) => Some(password),
        None => second,
    };
    match given {
        Some(password) => {
            if password.as_str().unicode_len() == 0 {
                None
            } else {
                Some(password)
            }
        },
        None => None,
    }
}

/// What only chance and the clock can give.
#[derive(Debug)]
pub struct Fresh {
    pub participant_id: u128,
    pub session_id: u128,
    pub generation: u128,
    pub token_tail: String,
    pub salt: String,
    pub now: i128,
}

/// Draws fresh identifiers, a token tail and a salt, and reads the clock.
pub fn draw() -> (fresh: Fresh)
    ensures
        is_random_id(fresh.participant_id),
        is_random_id(fresh.session_id),
        is_random_id(fresh.generation),
        fresh.token_tail@.len() == TOKEN_TAIL,
        forall|i: int|
            0 <= i < TOKEN_TAIL ==> crate::text::ascii_alphanumeric(
                #[trigger] fresh.token_tail@[i],
            ),
        fresh.salt@.len() == 22,
        good_salt(fresh.salt@),
        0 <= fresh.now <= MAX_INSTANT,
{
    Fresh {
        participant_id: new_id(),
        session_id: new_id(),
        generation: new_id(),
        token_tail: random_token(TOKEN_TAIL),
        salt: random_salt(),
        now: utc_now(),
    }
}

/// The whole seconds of an instant since the epoch.
pub open spec fn seconds_of(instant: i128) -> u64 {
    (instant as int / 1_000_000_000) as u64
}

/// The whole seconds of an instant since the epoch.
pub fn epoch_seconds(instant: i128) -> (seconds: u64)
    requires
        0 <= instant <= MAX_INSTANT,
    ensures
        seconds == seconds_of(instant),
        seconds <= 8_210_266_876_799,
{
    (instant / NANOS_PER_SECOND) as u64
}

/// A participant that has just come.
pub open spec fn newcomer(id: u128, nickname: Seq<char>, role: ParticipantRole, now: i128) -> ParticipantModel {
    ParticipantModel {
        id,
        livekit_identity: identity_text(id),
        nickname,
        role,
        created_at: now,
        last_seen_at: now,
    }
}

/// A participant that has just come, under an identifier.
pub fn participant_at(id: u128, nickname: &str, role: ParticipantRole, now: i128) -> (participant:
    Participant)
    ensures
        participant@ == newcomer(id, nickname@, role, now),
{
    Participant {
        id,
        livekit_identity: livekit_identity(id),
        nickname: nickname.to_owned(),
        role,
        created_at: now,
        last_seen_at: now,
    }
}

/// A participant that has just come.
pub fn new_participant(nickname: &str, role: ParticipantRole) -> (participant: Participant)
    ensures
        is_random_id(participant.id),
        0 <= participant.created_at <= MAX_INSTANT,
        participant@ == newcomer(participant.id, nickname@, role, participant.created_at),
{
    let id = new_id();
    let now = utc_now();
    participant_at(id, nickname, role, now)
}

/// What a participant is given on joining.
#[derive(Debug)]
pub struct JoinResponse {
    pub participant_id: u128,
    pub nickname: String,
    pub role: ParticipantRole,
    pub livekit_url: String,
    pub livekit_token: String,
    pub session_token: String,
    pub resume_token: String,
    pub connection_generation: u128,
    pub recording_state: Option<RecordingStatus>,
}

/// What a join response holds.
#[verifier::ext_equal]
pub struct JoinModel {
    pub participant_id: u128,
    pub nickname: Seq<char>,
    pub role: ParticipantRole,
    pub livekit_url: Seq<char>,
    pub livekit_token: Seq<char>,
    pub session_token: Seq<char>,
    pub resume_token: Seq<char>,
    pub connection_generation: u128,
    pub recording_state: Option<RecordingStatus>,
}

impl View for JoinResponse {
    type V = JoinModel;

    open spec fn view(&self) -> JoinModel {
        JoinModel {
            participant_id: self.participant_id,
            nickname: self.nickname@,
            role: self.role,
            livekit_url: self.livekit_url@,
            livekit_token: self.livekit_token@,
            session_token: self.session_token@,
            resume_token: self.resume_token@,
            connection_generation: self.connection_generation,
            recording_state: self.recording_state,
        }
    }
}

/// What the reply to a request holds.
pub open spec fn reply_view(reply: Result<JoinResponse, Refusal>) -> Result<JoinModel, Refusal> {
    match reply {
        Ok(response) => Ok(response@),
        Err(refusal) => Err(refusal),
    }
}

/// The role of a participant in a room session.
pub open spec fn role_in(session: RoomSession, id: u128) -> ParticipantRole {
    if session.host_participant_id == Some(id) {
        ParticipantRole::Host
    } else {
        ParticipantRole::Participant
    }
}

/// The claims of a fresh media token.
pub open spec fn fresh_media_claims(
    settings: Settings,
    identity: Seq<char>,
    generation: u128,
    now: i128,
) -> Seq<char> {
    participant_claims(
        settings.api_key@,
        identity,
        (seconds_of(now) + MEDIA_TOKEN_SECONDS) as u64,
        generation,
    )
}

/// The claims of a fresh session token.
pub open spec fn fresh_session_claims(
    settings: Settings,
    id: u128,
    generation: u128,
    now: i128,
) -> Seq<char> {
    json_object(
        session_members(
            settings.api_key@,
            id,
            (seconds_of(now) + SESSION_TOKEN_SECONDS) as u64,
            generation,
        ),
    )
}

/// A participant is given a new connection under a resume token with this hash: the room
/// session is ensured, the role follows from it, the hash is kept and a new connection
/// generation begins. Without a hash nothing but the participant's record is kept.
pub open spec fn admitted(m: StoreModel, p: ParticipantModel, hash: Option<Seq<char>>, fresh: Fresh) -> (
    StoreModel,
    Result<ParticipantRole, Refusal>,
) {
    let (ensured, session) = m.ensured(fresh.session_id, fresh.now);
    match session {
        Err(_) => (ensured, Err(Refusal::Internal)),
        Ok(s) => {
            let seen = ParticipantModel { role: role_in(s, p.id), last_seen_at: fresh.now, ..p };
            let known = ensured.upserted(seen);
            match hash {
                None => (known, Err(Refusal::Internal)),
                Some(h) => (
                    known.with_credential(p.id, h, fresh.now).connecting(
                        p.id,
                        fresh.generation,
                        fresh.now,
                    ),
                    Ok(seen.role),
                ),
            }
        },
    }
}

/// A participant is given a new connection, with a resume token, a session token and a
/// media token.
pub open spec fn issued(m: StoreModel, p: ParticipantModel, settings: Settings, fresh: Fresh) -> (
    StoreModel,
    Result<JoinModel, Refusal>,
) {
    let token = resume_token_text(p.id, fresh.token_tail@);
    let (after, role) = admitted(m, p, argon2_text(token, fresh.salt@), fresh);
    match role {
        Err(refusal) => (after, Err(refusal)),
        Ok(role) => {
            let media = fresh_media_claims(
                settings,
                p.livekit_identity,
                fresh.generation,
                fresh.now,
            );
            let claims = fresh_session_claims(settings, p.id, fresh.generation, fresh.now);
            (
                after,
                Ok(
                    JoinModel {
                        participant_id: p.id,
                        nickname: p.nickname,
                        role,
                        livekit_url: settings.livekit_url@,
                        livekit_token: jwt_text(media, settings.api_secret@)->0,
                        session_token: jwt_text(claims, settings.api_secret@)->0,
                        resume_token: token,
                        connection_generation: fresh.generation,
                        recording_state: match after.active_recording() {
                            Some(r) => Some(r.status),
                            None => None,
                        },
                    },
                ),
            )
        },
    }
}

/// What a participant was given is good for: the session token names the participant and
/// the connection, the media token is that of the connection, the resume token names the
/// participant, and the stored hash accepts it.
pub open spec fn usable(m: StoreModel, r: JoinModel, identity: Seq<char>, settings: Settings, now: i128) -> bool {
    &&& jwt_claims(r.session_token, settings.api_secret@, settings.api_key@) == Some(
        fresh_session_claims(settings, r.participant_id, r.connection_generation, now),
    )
    &&& jwt_claims(r.livekit_token, settings.api_secret@, settings.api_key@) == Some(
        fresh_media_claims(settings, identity, r.connection_generation, now),
    )
    &&& resumed_participant(r.resume_token) == Some(r.participant_id)
    &&& m.credentials.has(r.participant_id)
    &&& argon2_accepts(m.credentials.map[r.participant_id].resume_token_hash, r.resume_token)
}

/// Gives a participant a new connection under a resume token with this hash.
pub fn let_in(store: &mut Store, participant: &Participant, hash: Option<&str>, fresh: &Fresh) -> (role:
    Result<ParticipantRole, Refusal>)
    requires
        old(store).wf(),
        schedulable(fresh.now),
    ensures
        final(store).wf(),
        (final(store)@, role) == admitted(old(store)@, participant@, str_of(hash), *fresh),
{
    let session = match store.ensure_active_room_session(fresh.session_id, fresh.now) {
        Ok(session) => session,
        Err(_) => {
            return Err(Refusal::Internal);
        },
    };
    let hosting = match session.host_participant_id {
        Some(host) => host == participant.id,
        None => false,
    };
    let role = if hosting {
        ParticipantRole::Host
    } else {
        ParticipantRole::Participant
    };
    let mut seen = participant.clone();
    seen.role = role;
    seen.last_seen_at = fresh.now;
    store.upsert_participant(&seen);
    match hash {
        Some(hash) => {
            store.set_resume_credential(participant.id, hash, fresh.now);
            store.begin_connection(participant.id, fresh.generation, fresh.now);
            Ok(role)
        },
        None => Err(Refusal::Internal),
    }
}

/// Gives a participant a new connection, with a resume token, a session token and a media
/// token.
pub fn issue_connection(
    store: &mut Store,
    settings: &Settings,
    participant: Participant,
    fresh: &Fresh,
) -> (reply: Result<JoinResponse, Refusal>)
    requires
        old(store).wf(),
        schedulable(fresh.now),
    ensures
        final(store).wf(),
        (final(store)@, reply_view(reply)) == issued(old(store)@, participant@, *settings, *fresh),
        reply is Ok ==> usable(
            final(store)@,
            reply->Ok_0@,
            participant@.livekit_identity,
            *settings,
            fresh.now,
        ),
{
    let token = resume_token(participant.id, fresh.token_tail.as_str());
    let hash = hash_with_salt(token.as_str(), fresh.salt.as_str());
    let hash_text = match &hash {
        Some(hash) => Some(hash.as_str()),
        None => None,
    };
    let role = match let_in(store, &participant, hash_text, fresh) {
        Ok(role) => role,
        Err(refusal) => {
            return Err(refusal);
        },
    };
    let seconds = epoch_seconds(fresh.now);
    let livekit_token = match participant_token(
        settings.api_key.as_str(),
        settings.api_secret.as_str(),
        participant.livekit_identity.as_str(),
        fresh.generation,
        seconds,
    ) {
        Some(token) => token,
        None => {
            return Err(Refusal::Internal);
        },
    };
    let session_token = match session_token(
        settings.api_key.as_str(),
        settings.api_secret.as_str(),
        participant.id,
        fresh.generation,
        seconds,
    ) {
        Some(token) => token,
        None => {
            return Err(Refusal::Internal);
        },
    };
    let recording_state = match store.active_recording() {
        Some(recording) => Some(recording.status),
        None => None,
    };
    Ok(
        JoinResponse {
            participant_id: participant.id,
            nickname: participant.nickname,
            role,
            livekit_url: settings.livekit_url.clone(),
            livekit_token,
            session_token,
            resume_token: token,
            connection_generation: fresh.generation,
            recording_state,
        },
    )
}

/// A nickname without the white space at its ends.
pub open spec fn nickname_of(input: Seq<char>) -> Seq<char> {
    trim_both(input, |c: char| white_space(c))
}

/// The participant behind a request to join: whoever proved to be the host of an older
/// installation keeps that identity; anyone else is a newcomer.
pub open spec fn joiner(m: StoreModel, proved: bool, nickname: Seq<char>, fresh: Fresh) -> ParticipantModel {
    match m.host_credential {
        Some((id, _)) => if proved {
            if m.participants.has(id) {
                ParticipantModel {
                    nickname,
                    last_seen_at: fresh.now,
                    ..m.participants.map[id]
                }
            } else {
                newcomer(id, nickname, ParticipantRole::Host, fresh.now)
            }
        } else {
            newcomer(fresh.participant_id, nickname, ParticipantRole::Participant, fresh.now)
        },
        None => newcomer(
            fresh.participant_id,
            nickname,
            ParticipantRole::Participant,
            fresh.now,
        ),
    }
}

/// The participant behind a request to join.
pub fn joining_participant(store: &Store, proved: bool, nickname: &str, fresh: &Fresh) -> (participant:
    Participant)
    requires
        store.wf(),
    ensures
        participant@ == joiner(store@, proved, nickname@, *fresh),
{
    let legacy = match store.host() {
        Some((id, _)) => {
            if proved {
                Some(id)
            } else {
                None
            }
        },
        None => None,
    };
    match legacy {
        Some(id) => match store.participant(id) {
            Some(known) => {
                let mut participant = known;
                participant.nickname = nickname.to_owned();
                participant.last_seen_at = fresh.now;
                participant
            },
            None => participant_at(id, nickname, ParticipantRole::Host, fresh.now),
        },
        None => participant_at(
            fresh.participant_id,
            nickname,
            ParticipantRole::Participant,
            fresh.now,
        ),
    }
}

/// Whether an authorization header proves the host of an older installation.
pub open spec fn proves_host(m: StoreModel, authorization: Option<Seq<char>>) -> bool {
    match m.host_credential {
        Some((_, hash)) => holds_host_secret(authorization, hash),
        None => false,
    }
}

/// The participant behind a request to join with an authorization header.
pub open spec fn joining(
    m: StoreModel,
    authorization: Option<Seq<char>>,
    nickname: Seq<char>,
    fresh: Fresh,
) -> ParticipantModel {
    joiner(m, proves_host(m, authorization), nickname, fresh)
}

/// A request to join under a nickname of 1 to 80 characters.
pub open spec fn joined_room(
    m: StoreModel,
    authorization: Option<Seq<char>>,
    input: Seq<char>,
    settings: Settings,
    fresh: Fresh,
) -> (StoreModel, Result<JoinModel, Refusal>) {
    let nickname = nickname_of(input);
    if nickname.len() == 0 || nickname.len() > 80 {
        (m, Err(Refusal::InvalidNickname))
    } else {
        let p = joining(m, authorization, nickname, fresh);
        issued(m.upserted(p), p, settings, fresh)
    }
}

/// Admits a participant to the room.
pub fn join(
    store: &mut Store,
    settings: &Settings,
    authorization: Option<&str>,
    nickname: &str,
    fresh: &Fresh,
) -> (reply: Result<JoinResponse, Refusal>)
    requires
        old(store).wf(),
        schedulable(fresh.now),
    ensures
        final(store).wf(),
        (final(store)@, reply_view(reply)) == joined_room(
            old(store)@,
            str_of(authorization),
            nickname@,
            *settings,
            *fresh,
        ),
        reply is Ok ==> usable(
            final(store)@,
            reply->Ok_0@,
            joining(
                old(store)@,
                str_of(authorization),
                nickname_of(nickname@),
                *fresh,
            ).livekit_identity,
            *settings,
            fresh.now,
        ),
{
    let nickname = trim(nickname);
    let length: usize = nickname.as_str().unicode_len();
    if length == 0 || length > 80 {
        return Err(Refusal::InvalidNickname);
    }
    let proved = match store.host() {
        Some((_, hash)) => host_ok(authorization, hash.as_str()),
        None => false,
    };
    let participant = joining_participant(store, proved, nickname.as_str(), fresh);
    store.upsert_participant(&participant);
    issue_connection(store, settings, participant, fresh)
}

/// The participant who may resume: the one that the token names, if a hash is kept that
/// accepts the token.
pub open spec fn resumer(m: StoreModel, named: Option<u128>, accepted: bool) -> Result<
    ParticipantModel,
    Refusal,
> {
    match named {
        None => Err(Refusal::InvalidResumeToken),
        Some(id) => if !m.credentials.has(id) || !accepted {
            Err(Refusal::InvalidResumeToken)
        } else if !m.participants.has(id) {
            Err(Refusal::IdentityGone)
        } else {
            Ok(m.participants.map[id])
        },
    }
}

/// The participant who may resume.
pub fn resuming_participant(store: &Store, named: Option<u128>, accepted: bool) -> (participant: Result<
    Participant,
    Refusal,
>)
    requires
        store.wf(),
    ensures
        match participant {
            Ok(p) => resumer(store@, named, accepted) == Ok::<ParticipantModel, Refusal>(p@),
            Err(refusal) => resumer(store@, named, accepted) == Err::<ParticipantModel, Refusal>(
                refusal,
            ),
        },
{
    match named {
        None => Err(Refusal::InvalidResumeToken),
        Some(id) => {
            if store.resume_credential(id).is_none() || !accepted {
                return Err(Refusal::InvalidResumeToken);
            }
            match store.participant(id) {
                Some(participant) => Ok(participant),
                None => Err(Refusal::IdentityGone),
            }
        },
    }
}

/// Whether the hash that is kept for a participant accepts a token.
pub open spec fn hash_accepts(m: StoreModel, named: Option<u128>, token: Seq<char>) -> bool {
    match named {
        Some(id) => m.credentials.has(id) && argon2_accepts(
            m.credentials.map[id].resume_token_hash,
            token,
        ),
        None => false,
    }
}

/// A request to resume an identity.
pub open spec fn resumed(m: StoreModel, token: Seq<char>, settings: Settings, fresh: Fresh) -> (
    StoreModel,
    Result<JoinModel, Refusal>,
) {
    let named = resumed_participant(token);
    match resumer(m, named, hash_accepts(m, named, token)) {
        Err(refusal) => (m, Err(refusal)),
        Ok(p) => issued(m, p, settings, fresh),
    }
}

/// Gives a new connection to the identity that a resume token names, and replaces the
/// token. A token whose hash is kept is never refused for its own sake.
pub fn resume(store: &mut Store, settings: &Settings, token: &str, fresh: &Fresh) -> (reply: Result<
    JoinResponse,
    Refusal,
>)
    requires
        old(store).wf(),
        schedulable(fresh.now),
    ensures
        final(store).wf(),
        (final(store)@, reply_view(reply)) == resumed(old(store)@, token@, *settings, *fresh),
        reply is Ok ==> {
            let id = reply->Ok_0.participant_id;
            &&& resumed_participant(token@) == Some(id)
            &&& old(store)@.participants.has(id)
            &&& usable(
                final(store)@,
                reply->Ok_0@,
                old(store)@.participants.map[id].livekit_identity,
                *settings,
                fresh.now,
            )
        },
        forall|id: u128, tail: Seq<char>|
            token@ == #[trigger] resume_token_text(id, tail) && old(store)@.credentials.has(id)
                && argon2_accepts(old(store)@.credentials.map[id].resume_token_hash, token@)
                && old(store)@.participants.has(id) ==> (final(store)@, reply_view(reply))
                == issued(old(store)@, old(store)@.participants.map[id], *settings, *fresh),
{
    let named = resume_token_participant_id(token);
    let accepted = match named {
        Some(id) => match store.resume_credential(id) {
            Some(hash) => verify_secret(token, hash.as_str()),
            None => false,
        },
        None => false,
    };
    match resuming_participant(store, named, accepted) {
        Ok(participant) => issue_connection(store, settings, participant, fresh),
        Err(refusal) => Err(refusal),
    }
}

/// A request to become host; `matches` says whether the password is right, `None` that no
/// password is configured.
pub open spec fn host_claimed(
    m: StoreModel,
    identity: Option<(u128, u128)>,
    matches: Option<bool>,
    session_id: u128,
    now: i128,
) -> (StoreModel, Result<(), Refusal>) {
    match identity {
        None => (m, Err(Refusal::ParticipantRequired)),
        Some((id, _)) => if !crate::auth::acts(m, identity) {
            (m, Err(Refusal::HostRequired))
        } else {
            match matches {
                None => (m, Err(Refusal::NoHostPassword)),
                Some(false) => (m, Err(Refusal::HostRequired)),
                Some(true) => {
                    let (after, claimed) = m.claimed(id, session_id, now);
                    match claimed {
                        Err(_) => (after, Err(Refusal::Internal)),
                        Ok(true) => (after, Ok(())),
                        Ok(false) => if after.room_host() == Some(id) {
                            (after, Ok(()))
                        } else {
                            (after, Err(Refusal::HostTaken))
                        },
                    }
                },
            }
        },
    }
}

/// Makes a participant host; `matches` says whether the password is right.
pub fn claim_host_checked(
    store: &mut Store,
    identity: Option<(u128, u128)>,
    matches: Option<bool>,
    session_id: u128,
    now: i128,
) -> (claimed: Result<(), Refusal>)
    requires
        old(store).wf(),
    ensures
        final(store).wf(),
        (final(store)@, claimed) == host_claimed(
            old(store)@,
            identity,
            matches,
            session_id,
            now,
        ),
{
    let participant_id = match identity {
        Some((participant_id, _)) => participant_id,
        None => {
            return Err(Refusal::ParticipantRequired);
        },
    };
    if !may_act(store, identity) {
        return Err(Refusal::HostRequired);
    }
    match matches {
        None => Err(Refusal::NoHostPassword),
        Some(false) => Err(Refusal::HostRequired),
        Some(true) => match store.claim_session_host(participant_id, session_id, now) {
            Err(_) => Err(Refusal::Internal),
            Ok(true) => Ok(()),
            Ok(false) => match store.room_host() {
                Some(host) => {
                    if host == participant_id {
                        Ok(())
                    } else {
                        Err(Refusal::HostTaken)
                    }
                },
                None => Err(Refusal::HostTaken),
            },
        },
    }
}

/// Whether a password is the one that is configured.
pub open spec fn password_check(expected: Option<Seq<char>>, password: Seq<char>) -> Option<bool> {
    match expected {
        Some(e) => Some(password_matches(password, e)),
        None => None,
    }
}

/// Makes a participant host, against the host password.
pub fn claim_host(
    store: &mut Store,
    settings: &Settings,
    identity: Option<(u128, u128)>,
    password: &str,
    session_id: u128,
    now: i128,
) -> (claimed: Result<(), Refusal>)
    requires
        old(store).wf(),
    ensures
        final(store).wf(),
        (final(store)@, claimed) == host_claimed(
            old(store)@,
            identity,
            password_check(text_of(settings.host_password), password@),
            session_id,
            now,
        ),
{
    let matches = match &settings.host_password {
        Some(expected) => Some(check_password(password, expected.as_str())),
        None => None,
    };
    claim_host_checked(store, identity, matches, session_id, now)
}

/// Notes that a participant left. The recording in progress is given back where the
/// departure is to be entered in its log.
pub fn leave(store: &mut Store, identity: Option<(u128, u128)>, now: i128) -> (logged: Result<
    Option<RecordingSession>,
    Refusal,
>)
    requires
        old(store).wf(),
    ensures
        final(store).wf(),
        match identity {
            None => final(store)@ == old(store)@ && logged is Err && logged->Err_0
                == Refusal::ParticipantRequired,
            Some((id, generation)) => {
                let (after, changed) = old(store)@.left(id, generation, now);
                &&& final(store)@ == after
                &&& logged is Ok
                &&& match logged->Ok_0 {
                    Some(recording) => changed && after.active_recording() == Some(recording@),
                    None => changed ==> after.active_recording() is None,
                }
            },
        },
{
    match identity {
        None => Err(Refusal::ParticipantRequired),
        Some((participant_id, generation)) => {
            if store.mark_connection_left(participant_id, generation, now) {
                Ok(store.active_recording())
            } else {
                Ok(None)
            }
        },
    }
}

/// What a participant sees of the room.
#[derive(Debug)]
pub struct StateResponse {
    pub participants: Vec<ParticipantView>,
    pub recording: Option<RecordingSession>,
    pub room_generation: i64,
    pub has_host: bool,
}

/// Whether a view of the room is that of a store.
pub open spec fn shows(state: StateResponse, m: StoreModel, session: RoomSession) -> bool {
    &&& crate::order::sorted_by(
        m.in_room(),
        crate::model::participant_keys(m.in_room()),
        state.participants@.map_values(|v: ParticipantView| v.participant@),
    )
    &&& forall|i: int|
        0 <= i < state.participants@.len() ==> m.holds_place(
            (#[trigger] state.participants@[i]).participant.id,
        ) && state.participants@[i].connection_state
            == m.connections.map[state.participants@[i].participant.id].state
    &&& match state.recording {
        Some(r) => m.active_recording() == Some(r@),
        None => m.active_recording() is None,
    }
    &&& state.room_generation == session.generation
    &&& state.has_host == (session.host_participant_id is Some)
}

/// Shows the room to a participant.
pub fn state_view(
    store: &mut Store,
    identity: Option<(u128, u128)>,
    session_id: u128,
    now: i128,
) -> (state: Result<StateResponse, Refusal>)
    requires
        old(store).wf(),
    ensures
        final(store).wf(),
        if !participates(old(store)@, identity) {
            final(store)@ == old(store)@ && state is Err && state->Err_0
                == Refusal::ParticipantRequired
        } else {
            let (after, session) = old(store)@.expire(now).ensured(session_id, now);
            &&& final(store)@ == after
            &&& match session {
                Ok(s) => state is Ok && shows(state->Ok_0, after, s),
                Err(_) => state is Err && state->Err_0 == Refusal::Internal,
            }
        },
{
    if !crate::auth::is_participant(store, identity) {
        return Err(Refusal::ParticipantRequired);
    }
    let _ = store.expire_connections(now);
    match store.ensure_active_room_session(session_id, now) {
        Ok(session) => Ok(
            StateResponse {
                participants: store.present_participants(),
                recording: store.active_recording(),
                room_generation: session.generation,
                has_host: session.host_participant_id.is_some(),
            },
        ),
        Err(_) => Err(Refusal::Internal),
    }
}

/// What is to be done about an empty room.
#[derive(Clone, Copy, Debug, PartialEq, Eq, Structural)]
pub enum LifecycleStep {
    /// Nothing.
    Wait,
    /// Stop this recording, if there is one, and then close the session.
    Close(Option<u128>),
}

/// A look at the room: overdue connections go offline; an occupied room is not empty; an
/// empty one is marked; one that has been empty for 60 seconds is to be closed.
pub open spec fn looked_after(m: StoreModel, now: i128) -> (StoreModel, LifecycleStep) {
    let expired = m.expire(now);
    if expired.occupied() {
        (StoreModel { empty_since: None, ..expired }, LifecycleStep::Wait)
    } else {
        match expired.empty_since {
            None => (StoreModel { empty_since: Some(now), ..expired }, LifecycleStep::Wait),
            Some(since) => if now - since < EMPTY_GRACE_NS {
                (expired, LifecycleStep::Wait)
            } else {
                (
                    expired,
                    LifecycleStep::Close(
                        match expired.active_recording() {
                            Some(r) => if crate::domain::is_open(r.status) {
                                Some(r.id)
                            } else {
                                None
                            },
                            None => None,
                        },
                    ),
                )
            },
        }
    }
}

/// Looks after the room.
pub fn look_after(store: &mut Store, now: i128) -> (step: LifecycleStep)
    requires
        old(store).wf(),
    ensures
        final(store).wf(),
        (final(store)@, step) == looked_after(old(store)@, now),
{
    let _ = store.expire_connections(now);
    if store.is_occupied() {
        store.set_room_empty_since(None);
        return LifecycleStep::Wait;
    }
    match store.room_empty_since() {
        None => {
            store.set_room_empty_since(Some(now));
            LifecycleStep::Wait
        },
        Some(since) => {
            let waited = match now.checked_sub(since) {
                Some(span) => span >= EMPTY_GRACE_NS,
                None => since < now,
            };
            if !waited {
                return LifecycleStep::Wait;
            }
            match store.active_recording() {
                Some(recording) => {
                    if open_for_tracks(recording.status) {
                        LifecycleStep::Close(Some(recording.id))
                    } else {
                        LifecycleStep::Close(None)
                    }
                },
                None => LifecycleStep::Close(None),
            }
        },
    }
}

/// Closes the session of a room that was found empty, once its recording has stopped.
pub fn close_empty_room(store: &mut Store, now: i128) -> (closed: Option<RoomSession>)
    requires
        old(store).wf(),
    ensures
        final(store).wf(),
        closed == old(store)@.closed_if_empty(now).1,
        final(store)@ == (StoreModel {
            empty_since: None,
            ..old(store)@.closed_if_empty(now).0
        }),
{
    let closed = store.close_active_room_session_if_empty(now);
    store.set_room_empty_since(None);
    closed
}

// What holds of the room.

/// Applying deadlines does not bring anyone into the room.
proof fn lemma_expiry_empties(m: StoreModel, now: i128)
    ensures
        m.expire(now).occupied() ==> m.occupied(),
{
    let after = m.expire(now);
    if after.occupied() {
        let k = choose|k: u128|
            after.connections.has(k) && crate::domain::is_present(
                (#[trigger] after.connections.map[k]).state,
            );
        assert(m.connections.has(k));
        assert(after.connections.map[k] == crate::model::expired(m.connections.map[k], now));
        assert(crate::domain::is_present(m.connections.map[k].state));
    }
}

/// A room that became empty and stays so is closed once it has been empty for 60 seconds,
/// and not before.
pub proof fn law_empty_room_is_closed_after_a_minute(m: StoreModel, found: i128, later: i128)
    requires
        !m.expire(found).occupied(),
        m.empty_since is None,
    ensures
        ({
            let (marked, first) = looked_after(m, found);
            let (after, second) = looked_after(marked, later);
            &&& first == LifecycleStep::Wait
            &&& marked.empty_since == Some(found)
            &&& later - found < 60_000_000_000 ==> second == LifecycleStep::Wait
                && after.empty_since == Some(found)
            &&& later - found >= 60_000_000_000 ==> second is Close
        }),
{
    let marked = looked_after(m, found).0;
    lemma_expiry_empties(marked, later);
    assert(marked.occupied() ==> m.expire(found).occupied()) by {
        if marked.occupied() {
            let k = choose|k: u128|
                marked.connections.has(k) && crate::domain::is_present(
                    (#[trigger] marked.connections.map[k]).state,
                );
            assert(m.expire(found).connections.map[k] == marked.connections.map[k]);
        }
    }
}

/// A room with somebody in it is never closed, and the wait starts anew.
pub proof fn law_occupied_room_waits(m: StoreModel, now: i128)
    requires
        m.expire(now).occupied(),
    ensures
        looked_after(m, now).1 == LifecycleStep::Wait,
        looked_after(m, now).0.empty_since is None,
{
}

/// A recording that runs when the room is closed is stopped first.
pub proof fn law_closing_stops_the_recording(m: StoreModel, now: i128)
    requires
        looked_after(m, now).1 is Close,
    ensures
        match m.active_recording() {
            Some(r) => crate::domain::is_open(r.status) ==> looked_after(m, now).1
                == LifecycleStep::Close(Some(r.id)),
            None => looked_after(m, now).1 == LifecycleStep::Close(None),
        },
{
}

/// Whoever is given a connection is in the room under it, and nobody else's connection,
/// record or token is touched.
pub proof fn law_issued_connection_is_current(
    m: StoreModel,
    p: ParticipantModel,
    settings: Settings,
    fresh: Fresh,
    other: u128,
)
    requires
        issued(m, p, settings, fresh).1 is Ok,
        other != p.id,
    ensures
        ({
            let (after, reply) = issued(m, p, settings, fresh);
            &&& after.connection_state(p.id, fresh.generation) == Some(
                crate::domain::ConnectionState::Connecting,
            )
            &&& participates(after, Some((p.id, fresh.generation)))
            &&& after.participants.has(p.id)
            &&& reply->Ok_0.participant_id == p.id
            &&& reply->Ok_0.connection_generation == fresh.generation
            &&& after.connections.get(other) == m.connections.get(other)
            &&& after.participants.get(other) == m.participants.get(other)
            &&& after.credentials.get(other) == m.credentials.get(other)
        }),
{
}

/// Whoever resumes keeps the identity, the nickname and the day of arrival; connections of
/// earlier generations are stale.
pub proof fn law_resuming_keeps_the_identity(
    m: StoreModel,
    token: Seq<char>,
    settings: Settings,
    fresh: Fresh,
    generation: u128,
)
    requires
        m.wf(),
        resumed(m, token, settings, fresh).1 is Ok,
        generation != fresh.generation,
    ensures
        ({
            let (after, reply) = resumed(m, token, settings, fresh);
            let id = reply->Ok_0.participant_id;
            &&& resumed_participant(token) == Some(id)
            &&& m.participants.has(id)
            &&& after.participants.map[id].livekit_identity
                == m.participants.map[id].livekit_identity
            &&& after.participants.map[id].nickname == m.participants.map[id].nickname
            &&& after.participants.map[id].created_at == m.participants.map[id].created_at
            &&& !after.current(id, generation)
        }),
{
    let id = resumed_participant(token)->0;
    assert(m.participants.map[id].id == id);
}

/// Leaving does not take the way back: a resume token is good for as much as before.
pub proof fn law_leaving_keeps_the_resume_token(
    m: StoreModel,
    id: u128,
    generation: u128,
    now: i128,
    token: Seq<char>,
    settings: Settings,
    fresh: Fresh,
)
    ensures
        ({
            let after = m.left(id, generation, now).0;
            let before_reply = resumed(m, token, settings, fresh).1;
            let after_reply = resumed(after, token, settings, fresh).1;
            &&& after.credentials == m.credentials
            &&& after.participants == m.participants
            &&& before_reply is Ok <==> after_reply is Ok
            &&& before_reply is Err ==> after_reply == before_reply
        }),
{
    let after = m.left(id, generation, now).0;
    assert(after.sessions == m.sessions);
}

/// The role given on joining is that of the room session: host for its host, participant
/// for anyone else.
pub proof fn law_role_follows_the_session(
    m: StoreModel,
    p: ParticipantModel,
    settings: Settings,
    fresh: Fresh,
)
    requires
        issued(m, p, settings, fresh).1 is Ok,
    ensures
        ({
            let session = m.ensured(fresh.session_id, fresh.now).1->Ok_0;
            let (after, reply) = issued(m, p, settings, fresh);
            &&& reply->Ok_0.role is Host <==> session.host_participant_id == Some(p.id)
            &&& after.participants.map[p.id].role == reply->Ok_0.role
        }),
{
}

/// A connection that is stale, or whose participant is away or left, controls nothing.
pub proof fn law_control_needs_the_hosts_current_connection(
    m: StoreModel,
    id: u128,
    generation: u128,
)
    ensures
        crate::auth::hosts(m, Some((id, generation))) ==> {
            &&& m.room_host() == Some(id)
            &&& m.current(id, generation)
            &&& crate::domain::is_acting(m.connections.map[id].state)
        },
        !crate::auth::hosts(m, None),
{
}

/// Where the session has no host, any participant whose connection may act becomes host with
/// the right password.
pub proof fn law_any_acting_participant_may_claim(
    m: StoreModel,
    id: u128,
    generation: u128,
    session_id: u128,
    now: i128,
)
    requires
        m.wf(),
        crate::auth::acts(m, Some((id, generation))),
        m.active_session() is Some,
        m.room_host() is None,
    ensures
        ({
            let (after, reply) = host_claimed(
                m,
                Some((id, generation)),
                Some(true),
                session_id,
                now,
            );
            &&& reply == Ok::<(), Refusal>(())
            &&& after.room_host() == Some(id)
            &&& crate::auth::hosts(after, Some((id, generation)))
        }),
{
    crate::laws::law_session_has_one_host(m, id, id, session_id, now, session_id, now);
}

/// The UTF-8 form of a text has at most four bytes per character.
proof fn lemma_utf8_len(text: Seq<char>)
    ensures
        encode_utf8(text).len() <= 4 * text.len(),
    decreases text.len(),
{
    if text.len() > 0 {
        lemma_utf8_len(text.drop_first());
    }
}

/// Whoever asks under a nickname of 1 to 80 characters is let in, with values as they are
/// drawn, unless no room session can be opened.
pub proof fn law_joining_succeeds(
    m: StoreModel,
    authorization: Option<Seq<char>>,
    input: Seq<char>,
    settings: Settings,
    fresh: Fresh,
)
    requires
        1 <= nickname_of(input).len() <= 80,
        good_salt(fresh.salt@),
        fresh.token_tail@.len() == TOKEN_TAIL,
        m.ensured(fresh.session_id, fresh.now).1 is Ok,
    ensures
        joined_room(m, authorization, input, settings, fresh).1 is Ok,
{
    let p = joining(m, authorization, nickname_of(input), fresh);
    lemma_token_is_hashed(p.id, fresh);
    assert(m.upserted(p).ensured(fresh.session_id, fresh.now).1 is Ok);
}

/// Whoever shows the resume token whose hash is kept is let in again, with values as they
/// are drawn, unless no room session can be opened.
pub proof fn law_resuming_succeeds(
    m: StoreModel,
    token: Seq<char>,
    settings: Settings,
    fresh: Fresh,
    id: u128,
)
    requires
        m.wf(),
        resumed_participant(token) == Some(id),
        m.participants.has(id),
        m.credentials.has(id),
        argon2_accepts(m.credentials.map[id].resume_token_hash, token),
        good_salt(fresh.salt@),
        fresh.token_tail@.len() == TOKEN_TAIL,
        m.ensured(fresh.session_id, fresh.now).1 is Ok,
    ensures
        resumed(m, token, settings, fresh).1 is Ok,
        resumed(m, token, settings, fresh).1->Ok_0.participant_id == id,
{
    assert(m.participants.map[id].id == id);
    lemma_token_is_hashed(id, fresh);
}

/// Resuming replaces the token: the new one is good for the same participant and a further
/// connection, and the old one is refused unless the new hash accepts it. The two differ
/// where the drawn text does.
pub proof fn law_resume_token_is_rotated(
    m: StoreModel,
    token: Seq<char>,
    settings: Settings,
    fresh: Fresh,
    next: Fresh,
    identity: Seq<char>,
    tail: Seq<char>,
)
    requires
        m.wf(),
        resumed(m, token, settings, fresh).1 is Ok,
        resumed(m, token, settings, fresh).0.wf(),
        usable(
            resumed(m, token, settings, fresh).0,
            resumed(m, token, settings, fresh).1->Ok_0,
            identity,
            settings,
            fresh.now,
        ),
        good_salt(next.salt@),
        next.token_tail@.len() == TOKEN_TAIL,
    ensures
        ({
            let (after, reply) = resumed(m, token, settings, fresh);
            let r = reply->Ok_0;
            let again = resumed(after, r.resume_token, settings, next).1;
            &&& resumed_participant(token) == Some(r.participant_id)
            &&& again is Ok
            &&& again->Ok_0.participant_id == r.participant_id
            &&& again->Ok_0.connection_generation == next.generation
            &&& !argon2_accepts(after.credentials.map[r.participant_id].resume_token_hash, token)
                ==> resumed(after, token, settings, next) == (
                after,
                Err::<JoinModel, Refusal>(Refusal::InvalidResumeToken),
            )
            &&& token == resume_token_text(r.participant_id, tail) && tail != fresh.token_tail@
                ==> r.resume_token != token
        }),
{
    let (after, reply) = resumed(m, token, settings, fresh);
    let r = reply->Ok_0;
    let id = resumed_participant(token)->0;
    assert(m.participants.map[id].id == id);
    assert(after.participants.has(id));
    crate::laws::law_ensured_session_is_active(
        m,
        fresh.session_id,
        fresh.now,
        next.session_id,
        next.now,
    );
    assert(after.sessions == m.ensured(fresh.session_id, fresh.now).0.sessions);
    law_resuming_succeeds(after, r.resume_token, settings, next, id);
    let skipped = crate::ids::hyphenated_text(id).len() + "."@.len();
    assert(resume_token_text(id, tail).skip(skipped as int) =~= tail);
    assert(r.resume_token.skip(skipped as int) =~= fresh.token_tail@);
}

proof fn lemma_token_is_hashed(id: u128, fresh: Fresh)
    requires
        good_salt(fresh.salt@),
        fresh.token_tail@.len() == TOKEN_TAIL,
    ensures
        argon2_text(resume_token_text(id, fresh.token_tail@), fresh.salt@) is Some,
{
    reveal_strlit(".");
    crate::ids::lemma_hyphenated_chars(id);
    lemma_utf8_len(resume_token_text(id, fresh.token_tail@));
}

/// The view of the room shows everyone of whom the server knows and whose connection is being
/// made, is online or is waited for, each once and in that state, and nobody else; the
/// recording in progress; and the number of the session and whether it has a host.
pub proof fn law_view_shows_everyone_present(
    state: StateResponse,
    m: StoreModel,
    session: RoomSession,
)
    requires
        m.wf(),
        shows(state, m, session),
    ensures
        forall|id: u128|
            #[trigger] m.participants.has(id) && m.connections.has(id) && (
            m.connections.map[id].state is Connecting || m.connections.map[id].state is Online
                || m.connections.map[id].state is Reconnecting) ==> exists|i: int|
                0 <= i < state.participants@.len() && (
                #[trigger] state.participants@[i]).participant.id == id,
        forall|i: int|
            0 <= i < state.participants@.len() ==> {
                let entry = #[trigger] state.participants@[i];
                let id = entry.participant.id;
                &&& m.participants.has(id)
                &&& entry.participant@ == m.participants.map[id]
                &&& m.connections.has(id)
                &&& entry.connection_state == m.connections.map[id].state
                &&& entry.connection_state is Connecting || entry.connection_state is Online
                    || entry.connection_state is Reconnecting
            },
        forall|i: int, j: int|
            0 <= i < j < state.participants@.len() ==> (
            #[trigger] state.participants@[i]).participant.id != (
            #[trigger] state.participants@[j]).participant.id
                && state.participants@[i].participant.created_at
                <= state.participants@[j].participant.created_at,
        match state.recording {
            Some(r) => m.active_recording() == Some(r@),
            None => m.active_recording() is None,
        },
        state.room_generation == session.generation,
        state.has_host <==> session.host_participant_id is Some,
{
    let shown = state.participants@.map_values(|v: ParticipantView| v.participant@);
    crate::laws::law_everyone_present_is_shown(m, shown);
    assert forall|i: int| 0 <= i < state.participants@.len() implies shown[i] == (
    #[trigger] state.participants@[i]).participant@ by {}
    assert forall|id: u128|
        #[trigger] m.participants.has(id) && m.connections.has(id) && (
        m.connections.map[id].state is Connecting || m.connections.map[id].state is Online
            || m.connections.map[id].state is Reconnecting) implies exists|i: int|
        0 <= i < state.participants@.len() && (#[trigger] state.participants@[i]).participant.id
            == id by {
        let i = choose|i: int| 0 <= i < shown.len() && (#[trigger] shown[i]).id == id;
        assert(state.participants@[i].participant.id == id);
    }
    assert forall|i: int| 0 <= i < state.participants@.len() implies {
        let entry = #[trigger] state.participants@[i];
        let id = entry.participant.id;
        &&& m.participants.has(id)
        &&& entry.participant@ == m.participants.map[id]
        &&& m.connections.has(id)
        &&& entry.connection_state == m.connections.map[id].state
        &&& entry.connection_state is Connecting || entry.connection_state is Online
            || entry.connection_state is Reconnecting
    } by {
        assert(shown[i] == state.participants@[i].participant@);
        assert(shown[i].id == state.participants@[i].participant.id);
    }
    assert forall|i: int, j: int| 0 <= i < j < state.participants@.len() implies (
    #[trigger] state.participants@[i]).participant.id != (
    #[trigger] state.participants@[j]).participant.id
        && state.participants@[i].participant.created_at
        <= state.participants@[j].participant.created_at by {
        assert(shown[i].id != shown[j].id);
    }
}

/// What is done about an empty room. While somebody has a connection that is being made, is
/// online or is waited for, once deadlines were applied, nothing is, and the room does not
/// count as empty. Else it is empty from now on, or since it was found so; after 60 seconds the
/// session is to be closed, and a recording that starts or runs is to be stopped first.
pub proof fn law_what_is_done_about_an_empty_room(m: StoreModel, now: i128)
    requires
        m.wf(),
    ensures
        ({
            let (after, step) = looked_after(m, now);
            let expired = m.expire(now);
            let somebody = exists|k: u128|
                expired.connections.has(k) && (
                (#[trigger] expired.connections.map[k]).state is Connecting
                    || expired.connections.map[k].state is Online
                    || expired.connections.map[k].state is Reconnecting);
            &&& after == (StoreModel { empty_since: after.empty_since, ..expired })
            &&& somebody ==> step is Wait && after.empty_since is None
            &&& !somebody && m.empty_since is None ==> step is Wait && after.empty_since == Some(now)
            &&& !somebody && m.empty_since is Some ==> after.empty_since == m.empty_since && (
            step is Close <==> now - m.empty_since->0 >= 60_000_000_000)
            &&& step is Close ==> step->Close_0 == match m.active_recording() {
                Some(r) => if r.status is Starting || r.status is Recording {
                    Some(r.id)
                } else {
                    None
                },
                None => None,
            }
        }),
{
    let expired = m.expire(now);
    if exists|k: u128|
        expired.connections.has(k) && ((#[trigger] expired.connections.map[k]).state is Connecting
            || expired.connections.map[k].state is Online
            || expired.connections.map[k].state is Reconnecting) {
        let k = choose|k: u128|
            expired.connections.has(k) && (
            (#[trigger] expired.connections.map[k]).state is Connecting
                || expired.connections.map[k].state is Online
                || expired.connections.map[k].state is Reconnecting);
        assert(crate::domain::is_present(expired.connections.map[k].state));
        assert(expired.occupied());
    }
    if expired.occupied() {
        let k = choose|k: u128|
            expired.connections.has(k) && crate::domain::is_present(
                (#[trigger] expired.connections.map[k]).state,
            );
        assert(expired.connections.has(k) && (expired.connections.map[k].state is Connecting
            || expired.connections.map[k].state is Online
            || expired.connections.map[k].state is Reconnecting));
    }
}

/// Whoever is let in gets a record, a connection and a resume token that are all of this
/// moment: the record shows the role in the session and the visit, the connection has the new
/// generation and 60 seconds to come online, and the hash that is kept is that of the token.
pub proof fn law_what_is_written_down_of_whoever_is_let_in(
    m: StoreModel,
    p: ParticipantModel,
    settings: Settings,
    fresh: Fresh,
)
    requires
        schedulable(fresh.now),
        issued(m, p, settings, fresh).1 is Ok,
    ensures
        ({
            let (after, reply) = issued(m, p, settings, fresh);
            let session = m.ensured(fresh.session_id, fresh.now).1->Ok_0;
            let row = after.participants.map[p.id];
            let connection = after.connections.map[p.id];
            let credential = after.credentials.map[p.id];
            let token = hyphenated_text(p.id) + "."@ + fresh.token_tail@;
            &&& after.participants.has(p.id)
            &&& row.nickname == p.nickname
            &&& row.last_seen_at == fresh.now
            &&& row.role is Host <==> session.host_participant_id == Some(p.id)
            &&& !m.participants.has(p.id) ==> row == (ParticipantModel {
                role: row.role,
                last_seen_at: fresh.now,
                ..p
            })
            &&& after.connections.has(p.id)
            &&& connection.generation == fresh.generation
            &&& connection.state is Connecting
            &&& connection.livekit_participant_sid is None
            &&& connection.reconnect_deadline is Some
            &&& connection.reconnect_deadline->0 == fresh.now + 60_000_000_000
            &&& connection.changed_at == fresh.now
            &&& after.credentials.has(p.id)
            &&& Some(credential.resume_token_hash) == argon2_text(token, fresh.salt@)
            &&& credential.rotated_at == fresh.now
            &&& reply->Ok_0.participant_id == p.id
            &&& reply->Ok_0.nickname == p.nickname
            &&& reply->Ok_0.role == row.role
            &&& reply->Ok_0.livekit_url == settings.livekit_url@
            &&& reply->Ok_0.resume_token == token
            &&& reply->Ok_0.connection_generation == fresh.generation
            &&& reply->Ok_0.recording_state == match m.active_recording() {
                Some(r) => Some(r.status),
                None => None,
            }
            &&& after.recordings == m.recordings
            &&& after.recording_rooms == m.recording_rooms
            &&& after.segments == m.segments
            &&& after.webhooks == m.webhooks
            &&& after.empty_since == m.empty_since
            &&& after.host_credential == m.host_credential
        }),
{
}

/// Letting somebody in fails only for want of a session or of a hash, and is then told as an
/// error of the server; a connection and a resume token are not touched by that.
pub proof fn law_when_nobody_can_be_let_in(
    m: StoreModel,
    p: ParticipantModel,
    settings: Settings,
    fresh: Fresh,
)
    ensures
        ({
            let (after, reply) = issued(m, p, settings, fresh);
            let token = hyphenated_text(p.id) + "."@ + fresh.token_tail@;
            &&& reply is Err <==> m.ensured(fresh.session_id, fresh.now).1 is Err || argon2_text(
                token,
                fresh.salt@,
            ) is None
            &&& reply is Err ==> reply->Err_0 is Internal && after.connections == m.connections
                && after.credentials == m.credentials
        }),
{
}

/// A session that is given out lasts twelve hours from now and is that of the participant and
/// the connection; a token for the media server lasts five minutes and is that of the identity
/// and the connection.
pub proof fn law_what_tokens_are_given_out(
    settings: Settings,
    id: u128,
    identity: Seq<char>,
    generation: u128,
    now: i128,
)
    requires
        0 <= now <= MAX_INSTANT,
    ensures
        ({
            let seconds = now as int / 1_000_000_000;
            &&& fresh_session_claims(settings, id, generation, now) == json_object(
                seq![
                    ("iss"@, json_string(settings.api_key@)),
                    ("sub"@, json_string(hyphenated_text(id))),
                    ("exp"@, decimal_text((seconds + 43_200) as nat)),
                    ("generation"@, json_string(hyphenated_text(generation))),
                    ("purpose"@, json_string("voice-chat-session"@)),
                ],
            )
            &&& fresh_media_claims(settings, identity, generation, now) == participant_claims(
                settings.api_key@,
                identity,
                (seconds + 300) as u64,
                generation,
            )
        }),
{
    let seconds = now as int / 1_000_000_000;
    assert(0 <= seconds <= 8_210_266_876_799);
    assert(session_members(
        settings.api_key@,
        id,
        (seconds_of(now) + SESSION_TOKEN_SECONDS) as u64,
        generation,
    ) =~= seq![
        ("iss"@, json_string(settings.api_key@)),
        ("sub"@, json_string(hyphenated_text(id))),
        ("exp"@, decimal_text((seconds + 43_200) as nat)),
        ("generation"@, json_string(hyphenated_text(generation))),
        ("purpose"@, json_string("voice-chat-session"@)),
    ]);
}

/// Who joins. A nickname is taken without the white space around it and must then have 1 to 80
/// characters; else nothing changes. Whoever shows the host secret of an older installation is
/// its host again, under the record that is kept of them where there is one; anyone else is a
/// newcomer, a participant from now on, under a fresh identifier.
pub proof fn law_who_joins(
    m: StoreModel,
    authorization: Option<Seq<char>>,
    input: Seq<char>,
    settings: Settings,
    fresh: Fresh,
)
    requires
        m.wf(),
    ensures
        ({
            let nickname = trim_both(input, |c: char| white_space(c));
            let (after, reply) = joined_room(m, authorization, input, settings, fresh);
            let p = joining(m, authorization, nickname, fresh);
            let known = m.host_credential is Some && bearer(authorization) is Some
                && argon2_accepts((m.host_credential->0).1, bearer(authorization)->0);
            &&& !(1 <= nickname.len() <= 80) <==> reply is Err && reply->Err_0 is InvalidNickname
            &&& !(1 <= nickname.len() <= 80) ==> after == m
            &&& 1 <= nickname.len() <= 80 ==> (after, reply) == issued(
                m.upserted(p),
                p,
                settings,
                fresh,
            )
            &&& p.nickname == nickname
            &&& p.last_seen_at == fresh.now
            &&& known ==> p.id == (m.host_credential->0).0
            &&& known && m.participants.has(p.id) ==> p.livekit_identity == m.participants.map[p.id].livekit_identity && p.role
                == m.participants.map[p.id].role && p.created_at
                == m.participants.map[p.id].created_at
            &&& known && !m.participants.has(p.id) ==> p.role is Host && p.created_at == fresh.now
                && p.livekit_identity == "p_"@ + simple_text(p.id)
            &&& !known ==> p.id == fresh.participant_id && p.role is Participant && p.created_at
                == fresh.now && p.livekit_identity == "p_"@ + simple_text(p.id)
        }),
{
    let nickname = trim_both(input, |c: char| white_space(c));
    let p = joining(m, authorization, nickname, fresh);
    if let Some((id, _)) = m.host_credential {
        assert(m.participants.has(id) ==> m.participants.map[id].id == id);
    }
    if 1 <= nickname.len() <= 80 {
        law_when_nobody_can_be_let_in(m.upserted(p), p, settings, fresh);
    }
}

/// Who resumes: whoever the token names, if the hash that is kept for them accepts it. Else the
/// token is refused, or where only the record is gone the identity is; nothing changes then.
pub proof fn law_who_resumes(m: StoreModel, token: Seq<char>, settings: Settings, fresh: Fresh)
    ensures
        ({
            let (after, reply) = resumed(m, token, settings, fresh);
            let named = resumed_participant(token);
            let id = named->0;
            let accepted = named is Some && m.credentials.has(id) && argon2_accepts(
                m.credentials.map[id].resume_token_hash,
                token,
            );
            &&& !accepted <==> reply is Err && reply->Err_0 is InvalidResumeToken
            &&& accepted && !m.participants.has(id) <==> reply is Err
                && reply->Err_0 is IdentityGone
            &&& !accepted || !m.participants.has(id) ==> after == m
            &&& accepted && m.participants.has(id) ==> (after, reply) == issued(
                m,
                m.participants.map[id],
                settings,
                fresh,
            )
        }),
{
    let named = resumed_participant(token);
    if named is Some && m.participants.has(named->0) {
        law_when_nobody_can_be_let_in(m, m.participants.map[named->0], settings, fresh);
    }
}

/// Who becomes host. Without a session one is told to show who asks; one whose connection is
/// not the present one, or is neither made nor online, may not; where no password is set nobody
/// can; with a wrong one one may not. With the right one one becomes host of a session without
/// a host, and stays host where one is; a session with another host is taken. Nothing changes
/// but by becoming host.
pub proof fn law_who_becomes_host(
    m: StoreModel,
    identity: Option<(u128, u128)>,
    matches: Option<bool>,
    session_id: u128,
    now: i128,
)
    requires
        m.wf(),
    ensures
        ({
            let (after, reply) = host_claimed(m, identity, matches, session_id, now);
            let id = (identity->0).0;
            let c = m.connections.map[id];
            let acting = m.connections.has(id) && c.generation == (identity->0).1 && (
            c.state is Connecting || c.state is Online);
            let asked = identity is Some && acting && matches == Some(true);
            let opened = m.ensured(session_id, now);
            &&& identity is None ==> reply is Err && reply->Err_0 is ParticipantRequired
            &&& identity is Some && !acting ==> reply is Err && reply->Err_0 is HostRequired
            &&& identity is Some && acting && matches is None ==> reply is Err
                && reply->Err_0 is NoHostPassword
            &&& identity is Some && acting && matches == Some(false) ==> reply is Err
                && reply->Err_0 is HostRequired
            &&& !asked ==> after == m
            &&& asked && opened.1 is Err ==> reply is Err && reply->Err_0 is Internal && after == m
            &&& asked && opened.1 is Ok ==> match opened.1->Ok_0.host_participant_id {
                None => reply is Ok && after.room_host() == Some(id),
                Some(host) => after == opened.0 && (host == id <==> reply is Ok) && (host != id
                    ==> reply->Err_0 is HostTaken),
            }
        }),
{
    crate::model::lemma_ensured_is_active(m, session_id, now);
    if let Some((id, generation)) = identity {
        let opened = m.ensured(session_id, now);
        if opened.1 is Ok && opened.1->Ok_0.host_participant_id is None {
            crate::laws::law_session_has_one_host(m, id, id, session_id, now, session_id, now);
        }
    }
}

/// The password in force is the first that is set, though it be empty; an empty one is none.
pub proof fn law_which_password_is_in_force(
    first: Option<Seq<char>>,
    second: Option<Seq<char>>,
    password: Seq<char>,
)
    ensures
        password_in_force(first, second) == Some(password) <==> password.len() > 0 && (first == Some(
            password,
        ) || first is None && second == Some(password)),
        password_check(None, password) is None,
{
}

} // verus!
