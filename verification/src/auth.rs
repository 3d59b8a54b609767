//! Who may do what: session tokens, media tokens, resume tokens and webhooks.

use vstd::prelude::*;
use vstd::utf8::encode_utf8;

use crate::claims::{
    claim_fields, field_in, fields_in, is_repeated, pairs_of, read_field, repeated,
};
use crate::crypto::{
    decode_either_base64, either_base64, same_bytes, sha256, text_digest, verify_secret,
};
use crate::domain::{acting, present};
use crate::ids::{hyphenated_text, parse_uuid, uuid_text, uuid_value};
use crate::json::{
    document, is_found, json_bool, json_document, json_object, json_string, model_of, plain, plain_value, texts_of, Found, FoundMember, Json, Member, ObjectWriter,
};
use crate::jwt::{claims_of, decode, encode, jwt_claims, jwt_text, never_expires};
use crate::store::Store;
use crate::text::{after_prefix, before_first, decimal_text, same_text, split_before, strip_prefix};

verus! {

/// The only room.
pub const ROOM: &'static str = "main";

/// What tells a session token from other tokens under the same secret.
pub const SESSION_PURPOSE: &'static str = "voice-chat-session";

/// How long a media token lasts, in seconds.
pub const MEDIA_TOKEN_SECONDS: u64 = 300;

/// How long a session token lasts, in seconds.
pub const SESSION_TOKEN_SECONDS: u64 = 43_200;

/// The token in an authorization header of the form `Bearer <token>`.
pub open spec fn bearer(authorization: Option<Seq<char>>) -> Option<Seq<char>> {
    match authorization {
        Some(value) => after_prefix(value, "Bearer "@),
        None => None,
    }
}

/// What an optional slice of text holds.
pub open spec fn str_of(text: Option<&str>) -> Option<Seq<char>> {
    match text {
        Some(t) => Some(t@),
        None => None,
    }
}

/// The token in an authorization header.
pub fn bearer_token<'a>(authorization: Option<&'a str>) -> (token: Option<&'a str>)
    ensures
        str_of(token) == bearer(str_of(authorization)),
{
    match authorization {
        Some(value) => strip_prefix(value, "Bearer "),
        None => None,
    }
}

// Session tokens.

/// The claims of a session token.
pub open spec fn session_members(
    api_key: Seq<char>,
    participant_id: u128,
    exp: u64,
    generation: u128,
) -> Seq<Member> {
    seq![
        ("iss"@, json_string(api_key)),
        ("sub"@, json_string(hyphenated_text(participant_id))),
        ("exp"@, decimal_text(exp as nat)),
        ("generation"@, json_string(hyphenated_text(generation))),
        ("purpose"@, json_string("voice-chat-session"@)),
    ]
}

proof fn lemma_session_members(
    api_key: Seq<char>,
    participant_id: u128,
    exp: u64,
    generation: u128,
)
    ensures
        plain(session_members(api_key, participant_id, exp, generation)),
        claims_of(session_members(api_key, participant_id, exp, generation), api_key),
{
    reveal_strlit("iss");
    reveal_strlit("sub");
    reveal_strlit("exp");
    reveal_strlit("generation");
    reveal_strlit("purpose");
    reveal_strlit("aud");
    reveal_strlit("nbf");
    reveal_strlit("$serde_json::private::RawValue");
    let members = session_members(api_key, participant_id, exp, generation);
    assert("iss"@[0] == 'i' && "sub"@[0] == 's' && "exp"@[0] == 'e' && "generation"@[0] == 'g'
        && "purpose"@[0] == 'p' && "aud"@[0] == 'a');
    assert forall|i: int| 0 <= i < members.len() implies plain_value((#[trigger] members[i]).1) by {
        if i == 2 {
            assert(members[2].1 == decimal_text(exp as nat));
        }
    }
    assert("iss"@.len() != "$serde_json::private::RawValue"@.len());
    assert(members[0] == ("iss"@, json_string(api_key)));
    assert(members.contains(("iss"@, json_string(api_key))));
    assert(members[2] == ("exp"@, decimal_text(exp as nat)));
    assert(members.contains(("exp"@, decimal_text(exp as nat))));
}

/// The claims of a session token, as JSON.
pub fn session_claims(api_key: &str, participant_id: u128, exp: u64, generation: u128) -> (claims:
    String)
    ensures
        claims@ == json_object(session_members(api_key@, participant_id, exp, generation)),
{
    let sub = uuid_text(participant_id);
    let connection = uuid_text(generation);
    let mut writer = ObjectWriter::new();
    writer.text("iss", api_key);
    writer.text("sub", sub.as_str());
    writer.number("exp", exp);
    writer.text("generation", connection.as_str());
    writer.text("purpose", SESSION_PURPOSE);
    assert(writer@ =~= session_members(api_key@, participant_id, exp, generation));
    writer.finish()
}

/// The token with which a participant acts under a connection.
pub fn session_token(
    api_key: &str,
    api_secret: &str,
    participant_id: u128,
    generation: u128,
    now_seconds: u64,
) -> (token: Option<String>)
    requires
        now_seconds <= u64::MAX - SESSION_TOKEN_SECONDS,
    ensures
        token is Some,
        ({
            let claims = json_object(
                session_members(
                    api_key@,
                    participant_id,
                    (now_seconds + SESSION_TOKEN_SECONDS) as u64,
                    generation,
                ),
            );
            &&& jwt_text(claims, api_secret@) == Some(token->0@)
            &&& jwt_claims(token->0@, api_secret@, api_key@) == Some(claims)
        }),
{
    let exp: u64 = now_seconds + SESSION_TOKEN_SECONDS;
    let claims = session_claims(api_key, participant_id, exp, generation);
    proof {
        lemma_session_members(api_key@, participant_id, exp, generation);
    }
    encode(claims.as_str(), api_secret)
}

/// What a lookup gives where it finds a text.
pub open spec fn found_text(found: Found) -> Option<Seq<char>> {
    match found {
        Found::Text(t) => Some(t),
        _ => None,
    }
}

/// The identifier that a text member holds.
pub open spec fn found_id(found: Found) -> Option<u128> {
    match found {
        Found::Text(t) => uuid_value(t),
        _ => None,
    }
}

/// The participant and the connection of a session, from what its claims hold: the issuer
/// is this server, there is an expiry, the purpose is that of sessions, and both
/// identifiers are there.
pub open spec fn identity_from(
    iss: Found,
    exp: Found,
    purpose: Found,
    participant_id: Option<u128>,
    generation: Option<u128>,
    api_key: Seq<char>,
) -> Option<(u128, u128)> {
    if found_text(iss) != Some(api_key) {
        None
    } else if !(exp is Whole) {
        None
    } else if found_text(purpose) != Some("voice-chat-session"@) {
        None
    } else {
        match (participant_id, generation) {
            (Some(p), Some(g)) => Some((p, g)),
            _ => None,
        }
    }
}

/// Whether a field of a session comes twice.
pub open spec fn session_repeated(fields: Seq<Member>) -> bool {
    repeated(fields, "iss"@) || repeated(fields, "sub"@) || repeated(fields, "exp"@) || repeated(
        fields,
        "generation"@,
    ) || repeated(fields, "purpose"@)
}

/// The participant and the connection that the claims of a session token name. Claims in
/// which a field of a session comes twice name none.
pub open spec fn identity_in(claims: Seq<char>, api_key: Seq<char>) -> Option<(u128, u128)> {
    match fields_in(claims) {
        Some(fields) => if session_repeated(fields) {
            None
        } else {
            identity_from(
                field_in(fields, "iss"@),
                field_in(fields, "exp"@),
                field_in(fields, "purpose"@),
                found_id(field_in(fields, "sub"@)),
                found_id(field_in(fields, "generation"@)),
                api_key,
            )
        },
        None => None,
    }
}

/// Whether a finding is this text.
fn found_is(found: &FoundMember, text: &str) -> (yes: bool)
    ensures
        yes == (found_text(found@) == Some(text@)),
{
    match found {
        FoundMember::Text(t) => same_text(t.as_str(), text),
        _ => false,
    }
}

/// The identifier that a finding holds.
fn id_in(found: &FoundMember) -> (id: Option<u128>)
    ensures
        id == found_id(found@),
        forall|known: u128|
            found@ == Found::Text(#[trigger] hyphenated_text(known)) ==> id == Some(known),
{
    match found {
        FoundMember::Text(t) => parse_uuid(t.as_str()),
        _ => None,
    }
}

/// The participant and the connection that the claims of a session token name. Claims
/// that the library wrote are read as they were written.
pub fn claims_identity(claims: &str, api_key: &str) -> (identity: Option<(u128, u128)>)
    ensures
        identity == identity_in(claims@, api_key@),
        forall|participant_id: u128, exp: u64, generation: u128|
            claims@ == json_object(
                #[trigger] session_members(api_key@, participant_id, exp, generation),
            ) ==> identity == Some((participant_id, generation)),
{
    let fields = claim_fields(claims);
    proof {
        assert forall|p: u128, e: u64, g: u128|
            claims@ == json_object(#[trigger] session_members(api_key@, p, e, g)) implies fields
            is Some && pairs_of(fields->0@) == session_members(api_key@, p, e, g)
            && !session_repeated(pairs_of(fields->0@)) by {
            lemma_session_members(api_key@, p, e, g);
        }
    }
    let fields = match fields {
        Some(fields) => fields,
        None => {
            return None;
        },
    };
    if is_repeated(&fields, "iss") || is_repeated(&fields, "sub") || is_repeated(&fields, "exp")
        || is_repeated(&fields, "generation") || is_repeated(&fields, "purpose") {
        return None;
    }
    let iss = read_field(&fields, "iss");
    let exp = read_field(&fields, "exp");
    let purpose = read_field(&fields, "purpose");
    let sub = read_field(&fields, "sub");
    let generation = read_field(&fields, "generation");
    proof {
        assert forall|p: u128, e: u64, g: u128|
            claims@ == json_object(#[trigger] session_members(api_key@, p, e, g)) implies {
            &&& iss@ == Found::Text(api_key@)
            &&& exp@ == Found::Whole(e)
            &&& purpose@ == Found::Text("voice-chat-session"@)
            &&& sub@ == Found::Text(hyphenated_text(p))
            &&& generation@ == Found::Text(hyphenated_text(g))
        } by {
            lemma_session_members(api_key@, p, e, g);
            let m = session_members(api_key@, p, e, g);
            assert(pairs_of(fields@) == m);
            assert(m[0].0 == "iss"@ && is_found(m[0].1, Found::Text(api_key@)));
            assert(m[1].0 == "sub"@ && is_found(m[1].1, Found::Text(hyphenated_text(p))));
            assert(m[2].0 == "exp"@ && is_found(m[2].1, Found::Whole(e)));
            assert(m[3].0 == "generation"@ && is_found(m[3].1, Found::Text(hyphenated_text(g))));
            assert(m[4].0 == "purpose"@ && is_found(m[4].1, Found::Text("voice-chat-session"@)));
        }
    }
    let participant = id_in(&sub);
    let connection = id_in(&generation);
    session_of(&iss, &exp, &purpose, participant, connection, api_key)
}

/// The participant and the connection of a session, from what its claims hold.
pub fn session_of(
    iss: &FoundMember,
    exp: &FoundMember,
    purpose: &FoundMember,
    participant_id: Option<u128>,
    generation: Option<u128>,
    api_key: &str,
) -> (identity: Option<(u128, u128)>)
    ensures
        identity == identity_from(
            iss@,
            exp@,
            purpose@,
            participant_id,
            generation,
            api_key@,
        ),
{
    if !found_is(iss, api_key) {
        return None;
    }
    match exp {
        FoundMember::Whole(_) => {},
        _ => {
            return None;
        },
    }
    if !found_is(purpose, SESSION_PURPOSE) {
        return None;
    }
    match (participant_id, generation) {
        (Some(p), Some(g)) => Some((p, g)),
        _ => None,
    }
}

/// The participant and the connection behind an authorization header. `None` where the
/// header holds no session token of this server, or one that has expired. A session that
/// never expires is always recognised.
pub fn session_identity(authorization: Option<&str>, api_key: &str, api_secret: &str) -> (identity:
    Option<(u128, u128)>)
    ensures
        match bearer(str_of(authorization)) {
            None => identity is None,
            Some(token) => match jwt_claims(token, api_secret@, api_key@) {
                None => identity is None,
                Some(claims) => {
                    &&& identity is Some || never_expires(claims) ==> identity == identity_in(
                        claims,
                        api_key@,
                    )
                    &&& forall|participant_id: u128, exp: u64, generation: u128|
                        claims == json_object(
                            #[trigger] session_members(api_key@, participant_id, exp, generation),
                        ) && (identity is Some || exp == u64::MAX) ==> identity == Some(
                            (participant_id, generation),
                        )
                },
            },
        },
{
    let token = match bearer_token(authorization) {
        Some(token) => token,
        None => {
            return None;
        },
    };
    proof {
        assert forall|p: u128, g: u128|
            never_expires(
                json_object(#[trigger] session_members(api_key@, p, u64::MAX, g)),
            ) by {
            lemma_session_members(api_key@, p, u64::MAX, g);
            let m = session_members(api_key@, p, u64::MAX, g);
            assert(m[2] == ("exp"@, decimal_text(u64::MAX as nat)));
        }
    }
    match decode(token, api_secret, api_key) {
        Some(claims) => claims_identity(claims.as_str(), api_key),
        None => None,
    }
}

/// Whether an identity is that of a participant in the room.
pub fn is_participant(store: &Store, identity: Option<(u128, u128)>) -> (yes: bool)
    requires
        store.wf(),
    ensures
        yes == participates(store@, identity),
{
    match identity {
        Some((participant_id, generation)) => match store.connection_state(
            participant_id,
            generation,
        ) {
            Some(state) => present(state),
            None => false,
        },
        None => false,
    }
}

/// Whether an identity's connection is current and holds a place in the room.
pub open spec fn participates(
    m: crate::model::StoreModel,
    identity: Option<(u128, u128)>,
) -> bool {
    match identity {
        Some((participant_id, generation)) => match m.connection_state(participant_id, generation) {
            Some(state) => crate::domain::is_present(state),
            None => false,
        },
        None => false,
    }
}

/// Whether an identity's connection is current and may act.
pub open spec fn acts(m: crate::model::StoreModel, identity: Option<(u128, u128)>) -> bool {
    match identity {
        Some((participant_id, generation)) => match m.connection_state(participant_id, generation) {
            Some(state) => crate::domain::is_acting(state),
            None => false,
        },
        None => false,
    }
}

/// Whether an identity is that of the host, under a connection that may act.
pub open spec fn hosts(m: crate::model::StoreModel, identity: Option<(u128, u128)>) -> bool {
    match identity {
        Some((participant_id, generation)) => m.room_host() == Some(participant_id) && acts(
            m,
            identity,
        ),
        None => false,
    }
}

/// Whether an identity's connection may act.
pub fn may_act(store: &Store, identity: Option<(u128, u128)>) -> (yes: bool)
    requires
        store.wf(),
    ensures
        yes == acts(store@, identity),
{
    match identity {
        Some((participant_id, generation)) => match store.connection_state(
            participant_id,
            generation,
        ) {
            Some(state) => acting(state),
            None => false,
        },
        None => false,
    }
}

/// Whether an identity is that of the host, under a connection that may act.
pub fn is_online_host(store: &Store, identity: Option<(u128, u128)>) -> (yes: bool)
    requires
        store.wf(),
    ensures
        yes == hosts(store@, identity),
{
    match identity {
        Some((participant_id, _)) => match store.room_host() {
            Some(host) => host == participant_id && may_act(store, identity),
            None => false,
        },
        None => false,
    }
}

// Media tokens.

/// What a media token permits.
#[derive(Debug)]
pub struct VideoGrant {
    pub room: String,
    pub room_join: bool,
    pub can_publish: bool,
    pub can_subscribe: bool,
    pub can_publish_data: bool,
    pub room_admin: bool,
    pub room_record: bool,
}

/// What a media token permits, as members of the `video` claim.
pub open spec fn grant_members(
    room: Seq<char>,
    room_join: bool,
    can_publish: bool,
    can_subscribe: bool,
    can_publish_data: bool,
    room_admin: bool,
    room_record: bool,
) -> Seq<Member> {
    seq![
        ("room"@, json_string(room)),
        ("roomJoin"@, json_bool(room_join)),
        ("canPublish"@, json_bool(can_publish)),
        ("canSubscribe"@, json_bool(can_subscribe)),
        ("canPublishData"@, json_bool(can_publish_data)),
        ("roomAdmin"@, json_bool(room_admin)),
        ("roomRecord"@, json_bool(room_record)),
    ]
}

impl VideoGrant {
    /// The members of the `video` claim.
    pub open spec fn members(&self) -> Seq<Member> {
        grant_members(
            self.room@,
            self.room_join,
            self.can_publish,
            self.can_subscribe,
            self.can_publish_data,
            self.room_admin,
            self.room_record,
        )
    }
}

proof fn lemma_grant_members(grant: VideoGrant)
    ensures
        plain(grant.members()),
{
    reveal_strlit("room");
    reveal_strlit("roomJoin");
    reveal_strlit("canPublish");
    reveal_strlit("canSubscribe");
    reveal_strlit("canPublishData");
    reveal_strlit("roomAdmin");
    reveal_strlit("roomRecord");
    reveal_strlit("$serde_json::private::RawValue");
    let m = grant.members();
    assert("$serde_json::private::RawValue"@.len() == 30);
    assert(m[0].0.len() == 4 && m[1].0.len() == 8 && m[2].0.len() == 10 && m[3].0.len() == 12
        && m[4].0.len() == 14 && m[5].0.len() == 9 && m[6].0.len() == 10);
    assert(m[2].0[0] == 'c' && m[6].0[0] == 'r');
    assert forall|i: int| 0 <= i < m.len() implies plain_value((#[trigger] m[i]).1) by {}
    assert forall|i: int, j: int| 0 <= i < j < m.len() implies (#[trigger] m[i]).0 != (
    #[trigger] m[j]).0 by {
        if i == 2 && j == 6 {
            assert(m[i].0[0] != m[j].0[0]);
        } else {
            assert(m[i].0.len() != m[j].0.len());
        }
    }
}

/// The claims of a media token.
pub open spec fn media_members(
    api_key: Seq<char>,
    sub: Seq<char>,
    exp: u64,
    video: Seq<Member>,
    metadata: Option<Seq<char>>,
) -> Seq<Member> {
    let claims = seq![
        ("iss"@, json_string(api_key)),
        ("sub"@, json_string(sub)),
        ("exp"@, decimal_text(exp as nat)),
        ("video"@, json_object(video)),
    ];
    match metadata {
        Some(text) => claims.push(("metadata"@, json_string(text))),
        None => claims,
    }
}

proof fn lemma_media_members(
    api_key: Seq<char>,
    sub: Seq<char>,
    exp: u64,
    video: Seq<Member>,
    metadata: Option<Seq<char>>,
)
    requires
        plain(video),
    ensures
        claims_of(media_members(api_key, sub, exp, video, metadata), api_key),
{
    reveal_strlit("iss");
    reveal_strlit("sub");
    reveal_strlit("exp");
    reveal_strlit("video");
    reveal_strlit("metadata");
    reveal_strlit("aud");
    reveal_strlit("nbf");
    let m = media_members(api_key, sub, exp, video, metadata);
    assert("iss"@[0] == 'i' && "sub"@[0] == 's' && "exp"@[0] == 'e' && "video"@[0] == 'v'
        && "metadata"@[0] == 'm' && "aud"@[0] == 'a' && "nbf"@[0] == 'n');
    assert forall|i: int| 0 <= i < m.len() implies plain_value((#[trigger] m[i]).1) || exists|
        inner: Seq<Member>,
    |
        plain(inner) && m[i].1 == #[trigger] json_object(inner) by {
        if i == 2 {
            assert(m[2].1 == decimal_text(exp as nat));
        } else if i == 3 {
            assert(plain(video) && m[3].1 == json_object(video));
        }
    }
    assert(m[0] == ("iss"@, json_string(api_key)));
    assert(m.contains(("iss"@, json_string(api_key))));
    assert(m[2] == ("exp"@, decimal_text(exp as nat)));
    assert(m.contains(("exp"@, decimal_text(exp as nat))));
}

/// The claims of a media token, as JSON.
pub fn media_claims(
    api_key: &str,
    sub: &str,
    exp: u64,
    video: &VideoGrant,
    metadata: Option<&str>,
) -> (claims: String)
    ensures
        claims@ == json_object(
            media_members(api_key@, sub@, exp, video.members(), str_of(metadata)),
        ),
{
    let mut grant = ObjectWriter::new();
    grant.text("room", video.room.as_str());
    grant.flag("roomJoin", video.room_join);
    grant.flag("canPublish", video.can_publish);
    grant.flag("canSubscribe", video.can_subscribe);
    grant.flag("canPublishData", video.can_publish_data);
    grant.flag("roomAdmin", video.room_admin);
    grant.flag("roomRecord", video.room_record);
    assert(grant@ =~= video.members());
    let grant_text = grant.finish();
    let mut writer = ObjectWriter::new();
    writer.text("iss", api_key);
    writer.text("sub", sub);
    writer.number("exp", exp);
    writer.raw("video", grant_text.as_str());
    if let Some(text) = metadata {
        writer.text("metadata", text);
    }
    assert(writer@ =~= media_members(api_key@, sub@, exp, video.members(), str_of(metadata)));
    writer.finish()
}

/// A token for the media server.
pub fn media_token(
    api_key: &str,
    api_secret: &str,
    sub: &str,
    video: &VideoGrant,
    metadata: Option<&str>,
    now_seconds: u64,
) -> (token: Option<String>)
    requires
        now_seconds <= u64::MAX - MEDIA_TOKEN_SECONDS,
    ensures
        token is Some,
        ({
            let claims = json_object(
                media_members(
                    api_key@,
                    sub@,
                    (now_seconds + MEDIA_TOKEN_SECONDS) as u64,
                    video.members(),
                    str_of(metadata),
                ),
            );
            &&& jwt_text(claims, api_secret@) == Some(token->0@)
            &&& jwt_claims(token->0@, api_secret@, api_key@) == Some(claims)
        }),
{
    let exp: u64 = now_seconds + MEDIA_TOKEN_SECONDS;
    let claims = media_claims(api_key, sub, exp, video, metadata);
    proof {
        lemma_grant_members(*video);
        lemma_media_members(api_key@, sub@, exp, video.members(), str_of(metadata));
    }
    encode(claims.as_str(), api_secret)
}

/// What a participant may do on the media server: join, publish and subscribe in the
/// room, and nothing else.
pub fn participant_grant() -> (grant: VideoGrant)
    ensures
        grant.members() == grant_members("main"@, true, true, true, false, false, false),
        grant.room@ == "main"@,
        !grant.room_admin,
        !grant.room_record,
        !grant.can_publish_data,
{
    VideoGrant {
        room: ROOM.to_owned(),
        room_join: true,
        can_publish: true,
        can_subscribe: true,
        can_publish_data: false,
        room_admin: false,
        room_record: false,
    }
}

/// What the server may do on the media server: administrate and record the room.
pub fn server_grant() -> (grant: VideoGrant)
    ensures
        grant.members() == grant_members("main"@, false, false, false, false, true, true),
{
    VideoGrant {
        room: ROOM.to_owned(),
        room_join: false,
        can_publish: false,
        can_subscribe: false,
        can_publish_data: false,
        room_admin: true,
        room_record: true,
    }
}

/// The metadata by which the media server's news are tied to a connection.
pub open spec fn connection_metadata(generation: u128) -> Seq<char> {
    json_object(seq![("connection_generation"@, json_string(hyphenated_text(generation)))])
}

/// The claims of a participant's media token.
pub open spec fn participant_claims(
    api_key: Seq<char>,
    identity: Seq<char>,
    exp: u64,
    generation: u128,
) -> Seq<char> {
    json_object(
        media_members(
            api_key,
            identity,
            exp,
            grant_members("main"@, true, true, true, false, false, false),
            Some(connection_metadata(generation)),
        ),
    )
}

/// The token with which a participant joins the room on the media server.
pub fn participant_token(
    api_key: &str,
    api_secret: &str,
    livekit_identity: &str,
    generation: u128,
    now_seconds: u64,
) -> (token: Option<String>)
    requires
        now_seconds <= u64::MAX - MEDIA_TOKEN_SECONDS,
    ensures
        token is Some,
        ({
            let claims = participant_claims(
                api_key@,
                livekit_identity@,
                (now_seconds + MEDIA_TOKEN_SECONDS) as u64,
                generation,
            );
            &&& jwt_text(claims, api_secret@) == Some(token->0@)
            &&& jwt_claims(token->0@, api_secret@, api_key@) == Some(claims)
        }),
{
    let connection = uuid_text(generation);
    let mut writer = ObjectWriter::new();
    writer.text("connection_generation", connection.as_str());
    proof {
        assert(writer@ =~= seq![
            ("connection_generation"@, json_string(hyphenated_text(generation))),
        ]);
    }
    let metadata = writer.finish();
    let grant = participant_grant();
    media_token(
        api_key,
        api_secret,
        livekit_identity,
        &grant,
        Some(metadata.as_str()),
        now_seconds,
    )
}

/// The token with which the server controls the media server.
pub fn server_token(api_key: &str, api_secret: &str, now_seconds: u64) -> (token: Option<String>)
    requires
        now_seconds <= u64::MAX - MEDIA_TOKEN_SECONDS,
    ensures
        token is Some,
        jwt_text(
            json_object(
                media_members(
                    api_key@,
                    "voice-recorder"@,
                    (now_seconds + MEDIA_TOKEN_SECONDS) as u64,
                    grant_members("main"@, false, false, false, false, true, true),
                    None,
                ),
            ),
            api_secret@,
        ) == Some(token->0@),
{
    let grant = server_grant();
    media_token(api_key, api_secret, "voice-recorder", &grant, None, now_seconds)
}

// Resume tokens.

/// A resume token: the participant and a random tail.
pub open spec fn resume_token_text(participant_id: u128, tail: Seq<char>) -> Seq<char> {
    hyphenated_text(participant_id) + "."@ + tail
}

/// A resume token. It names the participant it is written for.
pub fn resume_token(participant_id: u128, tail: &str) -> (token: String)
    ensures
        token@ == resume_token_text(participant_id, tail@),
        resumed_participant(token@) == Some(participant_id),
{
    let mut token = uuid_text(participant_id);
    token.append(".");
    token.append(tail);
    proof {
        lemma_resume_head(participant_id, tail@);
    }
    token
}

/// The participant that a resume token names.
pub open spec fn resumed_participant(token: Seq<char>) -> Option<u128> {
    match before_first(token, '.') {
        Some(head) => uuid_value(head),
        None => None,
    }
}

/// The participant that a resume token names. A token that the library wrote names the
/// participant it was written for.
pub fn resume_token_participant_id(token: &str) -> (id: Option<u128>)
    ensures
        id == resumed_participant(token@),
        forall|known: u128, tail: Seq<char>|
            token@ == #[trigger] resume_token_text(known, tail) ==> id == Some(known),
{
    let head = split_before(token, '.');
    proof {
        assert forall|known: u128, tail: Seq<char>|
            token@ == #[trigger] resume_token_text(known, tail) implies before_first(token@, '.')
            == Some(hyphenated_text(known)) by {
            lemma_resume_head(known, tail);
        }
    }
    match head {
        Some(text) => parse_uuid(text.as_str()),
        None => None,
    }
}

proof fn lemma_resume_head(id: u128, tail: Seq<char>)
    ensures
        before_first(resume_token_text(id, tail), '.') == Some(hyphenated_text(id)),
{
    reveal_strlit(".");
    let head = hyphenated_text(id);
    let token = resume_token_text(id, tail);
    crate::ids::lemma_hyphenated_chars(id);
    assert(token[head.len() as int] == '.');
    assert(token.contains('.'));
    crate::text::lemma_before_first(token, '.', head.len() as int);
    assert(token.take(head.len() as int) =~= head);
}

/// Whether an authorization header holds the secret of the host credential of older
/// installations.
pub open spec fn holds_host_secret(authorization: Option<Seq<char>>, hash: Seq<char>) -> bool {
    match bearer(authorization) {
        Some(token) => crate::crypto::argon2_accepts(hash, token),
        None => false,
    }
}

/// Whether an authorization header holds the secret of a host credential.
pub fn host_ok(authorization: Option<&str>, hash: &str) -> (yes: bool)
    ensures
        yes == holds_host_secret(str_of(authorization), hash@),
{
    match bearer_token(authorization) {
        Some(token) => verify_secret(token, hash),
        None => false,
    }
}

// Webhooks.

/// Why a webhook was rejected.
#[derive(Clone, Copy, Debug, PartialEq, Eq, Structural)]
pub enum WebhookRejection {
    MissingAuthorization,
    InvalidToken,
    UnreadableHash,
    HashMismatch,
    /// The body is not JSON.
    UnreadableBody,
}

/// Whether an issuer is the known one, or a list of issuers holds it.
pub open spec fn issued_by(iss: Found, api_key: Seq<char>) -> bool {
    match iss {
        Found::Text(t) => t == api_key,
        Found::Texts(list) => list.contains(api_key),
        _ => false,
    }
}

/// Whether an issuer is the known one, or a list of issuers holds it.
fn is_issued_by(iss: &FoundMember, api_key: &str) -> (yes: bool)
    ensures
        yes == issued_by(iss@, api_key@),
{
    match iss {
        FoundMember::Text(t) => same_text(t.as_str(), api_key),
        FoundMember::Texts(list) => {
            let ghost texts = texts_of(list@);
            let count: usize = list.len();
            let mut i: usize = 0;
            while i < count
                invariant
                    texts == texts_of(list@),
                    iss@ == Found::Texts(texts),
                    count == list@.len(),
                    i <= count,
                    forall|j: int| 0 <= j < i ==> #[trigger] texts[j] != api_key@,
                decreases count - i,
            {
                if same_text(list[i].as_str(), api_key) {
                    assert(texts[i as int] == api_key@);
                    return true;
                }
                i += 1;
            }
            false
        },
        _ => false,
    }
}

/// Whether a webhook's token vouches for its body, from what its claims hold: the issuer is
/// known, and the digest that was supplied is that of the body.
pub open spec fn vouched_by(
    iss: Found,
    supplied: Option<Option<Seq<u8>>>,
    digest: Seq<u8>,
    api_key: Seq<char>,
) -> Result<(), WebhookRejection> {
    match supplied {
        None => Err(WebhookRejection::InvalidToken),
        Some(bytes) => if !issued_by(iss, api_key) {
            Err(WebhookRejection::InvalidToken)
        } else {
            match bytes {
                None => Err(WebhookRejection::UnreadableHash),
                Some(b) => if b == digest {
                    Ok(())
                } else {
                    Err(WebhookRejection::HashMismatch)
                },
            }
        },
    }
}

/// The digest that the fields of claims supply: `None` where they hold no text for it,
/// `Some(None)` where the text cannot be read.
pub open spec fn supplied_in(fields: Seq<Member>) -> Option<Option<Seq<u8>>> {
    match found_text(field_in(fields, "sha256"@)) {
        Some(hash) => Some(either_base64(hash)),
        None => None,
    }
}

/// Whether the claims of a webhook's token vouch for its body. Claims that supply two digests
/// do not.
pub open spec fn vouched(claims: Seq<char>, api_key: Seq<char>, body: Seq<char>) -> Result<
    (),
    WebhookRejection,
> {
    match fields_in(claims) {
        Some(fields) => if repeated(fields, "sha256"@) {
            Err(WebhookRejection::InvalidToken)
        } else {
            vouched_by(
                field_in(fields, "iss"@),
                supplied_in(fields),
                sha256(encode_utf8(body)),
                api_key,
            )
        },
        None => Err(WebhookRejection::InvalidToken),
    }
}

/// What an optional byte string holds.
pub open spec fn bytes_of(bytes: Option<Vec<u8>>) -> Option<Seq<u8>> {
    match bytes {
        Some(b) => Some(b@),
        None => None,
    }
}

/// Whether a webhook's token vouches for its body, from what its claims hold.
pub fn vouches(
    iss: &FoundMember,
    supplied: Option<Option<Vec<u8>>>,
    digest: &Vec<u8>,
    api_key: &str,
) -> (checked: Result<(), WebhookRejection>)
    ensures
        checked == vouched_by(
            iss@,
            match supplied {
                Some(bytes) => Some(bytes_of(bytes)),
                None => None,
            },
            digest@,
            api_key@,
        ),
{
    match supplied {
        None => Err(WebhookRejection::InvalidToken),
        Some(bytes) => {
            if !is_issued_by(iss, api_key) {
                return Err(WebhookRejection::InvalidToken);
            }
            match bytes {
                None => Err(WebhookRejection::UnreadableHash),
                Some(b) => {
                    if same_bytes(&b, digest) {
                        Ok(())
                    } else {
                        Err(WebhookRejection::HashMismatch)
                    }
                },
            }
        },
    }
}

/// Whether the claims of a webhook's token vouch for its body.
pub fn check_webhook_claims(claims: &str, api_key: &str, body: &str) -> (checked: Result<
    (),
    WebhookRejection,
>)
    ensures
        checked == vouched(claims@, api_key@, body@),
{
    let fields = match claim_fields(claims) {
        Some(fields) => fields,
        None => {
            return Err(WebhookRejection::InvalidToken);
        },
    };
    if is_repeated(&fields, "sha256") {
        return Err(WebhookRejection::InvalidToken);
    }
    let iss = read_field(&fields, "iss");
    let supplied = match read_field(&fields, "sha256") {
        FoundMember::Text(hash) => Some(decode_either_base64(hash.as_str())),
        _ => None,
    };
    let digest = text_digest(body);
    vouches(&iss, supplied, &digest, api_key)
}

/// The token in a webhook's authorization header, with or without `Bearer `.
pub open spec fn webhook_token(authorization: Seq<char>) -> Seq<char> {
    match after_prefix(authorization, "Bearer "@) {
        Some(token) => token,
        None => authorization,
    }
}

/// Whether a webhook comes from the media server: its token is signed with the shared
/// secret, names the issuer, has not expired, and holds the digest of the body. Claims that
/// never expire are always heard.
pub fn verify_webhook(
    authorization: Option<&str>,
    body: &str,
    api_key: &str,
    api_secret: &str,
) -> (checked: Result<(), WebhookRejection>)
    ensures
        match authorization {
            None => checked == Err::<(), WebhookRejection>(WebhookRejection::MissingAuthorization),
            Some(value) => {
                let claims = jwt_claims(webhook_token(value@), api_secret@, api_key@);
                &&& claims is None ==> checked == Err::<(), WebhookRejection>(
                    WebhookRejection::InvalidToken,
                )
                &&& claims is Some ==> checked == vouched(claims->0, api_key@, body@) || checked
                    == Err::<(), WebhookRejection>(WebhookRejection::InvalidToken)
                &&& claims is Some && never_expires(claims->0) ==> checked == vouched(
                    claims->0,
                    api_key@,
                    body@,
                )
            },
        },
{
    let value = match authorization {
        Some(value) => value,
        None => {
            return Err(WebhookRejection::MissingAuthorization);
        },
    };
    let token = match strip_prefix(value, "Bearer ") {
        Some(token) => token,
        None => value,
    };
    match decode(token, api_secret, api_key) {
        Some(claims) => check_webhook_claims(claims.as_str(), api_key, body),
        None => Err(WebhookRejection::InvalidToken),
    }
}

/// Whether a result is what a webhook with these claims comes to: its rejection, or the
/// event that its body holds.
pub open spec fn heard(
    event: Result<Json, WebhookRejection>,
    claims: Seq<char>,
    api_key: Seq<char>,
    body: Seq<char>,
) -> bool {
    match (vouched(claims, api_key, body), json_document(body)) {
        (Err(rejection), _) => event is Err && event->Err_0 == rejection,
        (Ok(_), None) => event is Err && event->Err_0 == WebhookRejection::UnreadableBody,
        (Ok(_), Some(read)) => event is Ok && model_of(event->Ok_0) == read,
    }
}

/// The event of a webhook, once the webhook has been checked.
pub fn checked_event(checked: Result<(), WebhookRejection>, body: &str) -> (event: Result<
    Json,
    WebhookRejection,
>)
    ensures
        match (checked, json_document(body@)) {
            (Err(rejection), _) => event is Err && event->Err_0 == rejection,
            (Ok(_), None) => event is Err && event->Err_0 == WebhookRejection::UnreadableBody,
            (Ok(_), Some(read)) => event is Ok && model_of(event->Ok_0) == read,
        },
{
    match checked {
        Err(rejection) => Err(rejection),
        Ok(()) => match document(body) {
            Some(event) => Ok(event),
            None => Err(WebhookRejection::UnreadableBody),
        },
    }
}

/// The event that a webhook from the media server reports: its body, read as JSON.
pub fn webhook_event(
    authorization: Option<&str>,
    body: &str,
    api_key: &str,
    api_secret: &str,
) -> (event: Result<Json, WebhookRejection>)
    ensures
        event matches Ok(e) ==> json_document(body@) == Some(model_of(e)),
        match authorization {
            None => event is Err && event->Err_0 == WebhookRejection::MissingAuthorization,
            Some(value) => match jwt_claims(webhook_token(value@), api_secret@, api_key@) {
                None => event is Err && event->Err_0 == WebhookRejection::InvalidToken,
                Some(claims) => {
                    &&& heard(event, claims, api_key@, body@) || (event is Err && event->Err_0
                        == WebhookRejection::InvalidToken)
                    &&& never_expires(claims) ==> heard(event, claims, api_key@, body@)
                },
            },
        },
{
    let checked = verify_webhook(authorization, body, api_key, api_secret);
    checked_event(checked, body)
}

/// A webhook's token vouches for one body: another body with which it is accepted has the
/// same digest.
pub proof fn law_token_vouches_for_one_body(
    claims: Seq<char>,
    api_key: Seq<char>,
    body: Seq<char>,
    other: Seq<char>,
)
    requires
        vouched(claims, api_key, body) is Ok,
    ensures
        vouched(claims, api_key, other) is Ok <==> sha256(encode_utf8(other)) == sha256(
            encode_utf8(body),
        ),
{
}

/// Who takes part, who may act and who hosts, under a connection. To take part it must be the
/// participant's present one and be made, online or waited for; to act it must be made or
/// online; to host its participant must moreover be the host of the active session.
pub proof fn law_what_a_connection_is_good_for(
    m: crate::model::StoreModel,
    id: u128,
    generation: u128,
)
    ensures
        ({
            let identity = Some((id, generation));
            let c = m.connections.map[id];
            let present = m.connections.has(id) && c.generation == generation;
            &&& participates(m, identity) <==> present && (c.state is Connecting
                || c.state is Online || c.state is Reconnecting)
            &&& acts(m, identity) <==> present && (c.state is Connecting || c.state is Online)
            &&& hosts(m, identity) <==> present && (c.state is Connecting || c.state is Online)
                && m.room_host() == Some(id)
            &&& m.connection_state(id, generation) == if present {
                Some(c.state)
            } else {
                None
            }
            &&& !participates(m, None) && !acts(m, None) && !hosts(m, None)
        }),
{
}

/// A session is that of a participant and a connection exactly where its claims name this
/// server as issuer, an expiry, the purpose of sessions, and both of them.
pub proof fn law_session_needs_all_its_claims(
    iss: Found,
    exp: Found,
    purpose: Found,
    participant_id: Option<u128>,
    generation: Option<u128>,
    api_key: Seq<char>,
    p: u128,
    g: u128,
)
    ensures
        identity_from(iss, exp, purpose, participant_id, generation, api_key) == Some((p, g)) <==> {
            &&& iss == Found::Text(api_key)
            &&& exp is Whole
            &&& purpose == Found::Text("voice-chat-session"@)
            &&& participant_id == Some(p)
            &&& generation == Some(g)
        },
{
}

/// Claims that name a session name each of its five parts once: none of `iss`, `sub`, `exp`,
/// `generation` and `purpose` stands at two places.
pub proof fn law_session_claims_come_once(
    claims: Seq<char>,
    api_key: Seq<char>,
    i: int,
    j: int,
)
    requires
        identity_in(claims, api_key) is Some,
        0 <= i < j < fields_in(claims)->0.len(),
    ensures
        fields_in(claims) is Some,
        ({
            let fields = fields_in(claims)->0;
            let named = |name: Seq<char>| fields[i].0 == name && fields[j].0 == name;
            &&& !named("iss"@)
            &&& !named("sub"@)
            &&& !named("exp"@)
            &&& !named("generation"@)
            &&& !named("purpose"@)
            &&& field_in(fields, "iss"@) == Found::Text(api_key)
            &&& field_in(fields, "exp"@) is Whole
            &&& field_in(fields, "purpose"@) == Found::Text("voice-chat-session"@)
            &&& field_in(fields, "sub"@) is Text
            &&& uuid_value(field_in(fields, "sub"@)->Text_0) == Some(
                (identity_in(claims, api_key)->0).0,
            )
            &&& field_in(fields, "generation"@) is Text
            &&& uuid_value(field_in(fields, "generation"@)->Text_0) == Some(
                (identity_in(claims, api_key)->0).1,
            )
        }),
{
    let fields = fields_in(claims)->0;
    assert(!repeated(fields, "iss"@) && !repeated(fields, "sub"@) && !repeated(fields, "exp"@)
        && !repeated(fields, "generation"@) && !repeated(fields, "purpose"@));
}

/// A webhook is heard exactly where its claims supply one digest, name the issuer, alone or in
/// a list, and the digest is that of the body.
pub proof fn law_webhook_is_vouched_for_by_its_digest(
    claims: Seq<char>,
    api_key: Seq<char>,
    body: Seq<char>,
)
    ensures
        vouched(claims, api_key, body) is Ok <==> fields_in(claims) is Some && ({
            let fields = fields_in(claims)->0;
            let iss = field_in(fields, "iss"@);
            let hash = field_in(fields, "sha256"@);
            &&& !repeated(fields, "sha256"@)
            &&& iss == Found::Text(api_key) || iss is Texts && iss->Texts_0.contains(api_key)
            &&& hash is Text
            &&& either_base64(hash->Text_0) == Some(sha256(encode_utf8(body)))
        }),
{
}

/// A header gives its token behind `Bearer ` and a single blank, and none otherwise; a webhook's
/// header may do without.
pub proof fn law_token_stands_behind_bearer(value: Seq<char>, token: Seq<char>)
    ensures
        bearer(Some(value)) == Some(token) <==> value == "Bearer "@ + token,
        bearer(None) is None,
        value == "Bearer "@ + token ==> webhook_token(value) == token,
        bearer(Some(value)) is None ==> webhook_token(value) == value,
{
    crate::text::law_prefix_and_rest_are_the_text(value, "Bearer "@, token);
}

/// A resume token names whoever its part before the first full stop is the identifier of; one
/// without a full stop names nobody.
pub proof fn law_resume_token_names_its_owner(head: Seq<char>, tail: Seq<char>)
    requires
        !head.contains('.'),
    ensures
        resumed_participant(head.push('.') + tail) == uuid_value(head),
        resumed_participant(head) is None,
{
    crate::text::law_head_ends_at_the_first_mark(head.push('.') + tail, '.', head, tail);
    crate::text::law_head_ends_at_the_first_mark(head, '.', head, tail);
}

/// A token for the media server is good for five minutes from its issue, a session for twelve
/// hours.
pub proof fn law_how_long_tokens_last(now_seconds: u64)
    ensures
        now_seconds + MEDIA_TOKEN_SECONDS == now_seconds + 5 * 60,
        now_seconds + SESSION_TOKEN_SECONDS == now_seconds + 12 * 60 * 60,
{
}

/// A participant's token for the media server names the participant and the connection, and
/// permits to join the room, to publish and to subscribe, and neither to publish data nor to
/// administrate or record.
pub proof fn law_media_token_permits_no_more_than_taking_part(
    api_key: Seq<char>,
    identity: Seq<char>,
    exp: u64,
    generation: u128,
)
    ensures
        participant_claims(api_key, identity, exp, generation) == json_object(
            seq![
                ("iss"@, json_string(api_key)),
                ("sub"@, json_string(identity)),
                ("exp"@, decimal_text(exp as nat)),
                (
                    "video"@,
                    json_object(
                        seq![
                            ("room"@, json_string("main"@)),
                            ("roomJoin"@, "true"@),
                            ("canPublish"@, "true"@),
                            ("canSubscribe"@, "true"@),
                            ("canPublishData"@, "false"@),
                            ("roomAdmin"@, "false"@),
                            ("roomRecord"@, "false"@),
                        ],
                    ),
                ),
                (
                    "metadata"@,
                    json_string(
                        json_object(
                            seq![
                                (
                                    "connection_generation"@,
                                    json_string(hyphenated_text(generation)),
                                ),
                            ],
                        ),
                    ),
                ),
            ],
        ),
{
    let grant = seq![
        ("room"@, json_string("main"@)),
        ("roomJoin"@, "true"@),
        ("canPublish"@, "true"@),
        ("canSubscribe"@, "true"@),
        ("canPublishData"@, "false"@),
        ("roomAdmin"@, "false"@),
        ("roomRecord"@, "false"@),
    ];
    assert(grant_members("main"@, true, true, true, false, false, false) =~= grant);
    assert(media_members(
        api_key,
        identity,
        exp,
        grant,
        Some(connection_metadata(generation)),
    ) =~= seq![
        ("iss"@, json_string(api_key)),
        ("sub"@, json_string(identity)),
        ("exp"@, decimal_text(exp as nat)),
        ("video"@, json_object(grant)),
        ("metadata"@, json_string(connection_metadata(generation))),
    ]);
}

/// Why a webhook is not heard. Claims that are no object, supply no digest or two, or are not of
/// the issuer are no token of the media server; else a digest that is no base64 cannot be read,
/// and one that is not that of the body does not match. What is vouched for is heard if its body
/// is JSON.
pub proof fn law_why_a_webhook_is_not_heard(
    event: Result<Json, WebhookRejection>,
    claims: Seq<char>,
    api_key: Seq<char>,
    body: Seq<char>,
)
    requires
        heard(event, claims, api_key, body),
    ensures
        ({
            let fields = fields_in(claims)->0;
            let iss = field_in(fields, "iss"@);
            let hash = field_in(fields, "sha256"@);
            let of_the_issuer = fields_in(claims) is Some && !repeated(fields, "sha256"@) && (iss
                == Found::Text(api_key) || iss is Texts && iss->Texts_0.contains(api_key))
                && hash is Text;
            let digest = either_base64(hash->Text_0);
            &&& !of_the_issuer ==> event is Err && event->Err_0 is InvalidToken
            &&& of_the_issuer && digest is None ==> event is Err && event->Err_0 is UnreadableHash
            &&& of_the_issuer && digest is Some && digest->0 != sha256(encode_utf8(body)) ==> event
                is Err && event->Err_0 is HashMismatch
            &&& of_the_issuer && digest == Some(sha256(encode_utf8(body))) ==> match json_document(
                body,
            ) {
                Some(read) => event is Ok && model_of(event->Ok_0) == read,
                None => event is Err && event->Err_0 is UnreadableBody,
            }
        }),
{
}

/// What a grant permits is written under the name of what it permits.
pub proof fn law_grants_are_written_by_name(
    room: Seq<char>,
    join: bool,
    publish: bool,
    subscribe: bool,
    data: bool,
    admin: bool,
    record: bool,
)
    ensures
        grant_members(room, join, publish, subscribe, data, admin, record) == seq![
            ("room"@, json_string(room)),
            ("roomJoin"@, if join { "true"@ } else { "false"@ }),
            ("canPublish"@, if publish { "true"@ } else { "false"@ }),
            ("canSubscribe"@, if subscribe { "true"@ } else { "false"@ }),
            ("canPublishData"@, if data { "true"@ } else { "false"@ }),
            ("roomAdmin"@, if admin { "true"@ } else { "false"@ }),
            ("roomRecord"@, if record { "true"@ } else { "false"@ }),
        ],
{
    assert(grant_members(room, join, publish, subscribe, data, admin, record) =~= seq![
        ("room"@, json_string(room)),
        ("roomJoin"@, if join { "true"@ } else { "false"@ }),
        ("canPublish"@, if publish { "true"@ } else { "false"@ }),
        ("canSubscribe"@, if subscribe { "true"@ } else { "false"@ }),
        ("canPublishData"@, if data { "true"@ } else { "false"@ }),
        ("roomAdmin"@, if admin { "true"@ } else { "false"@ }),
        ("roomRecord"@, if record { "true"@ } else { "false"@ }),
    ]);
}

/// A token for the media server names its issuer, its subject, its expiry and what it permits,
/// and metadata only where there are some.
pub proof fn law_what_a_media_token_names(
    api_key: Seq<char>,
    sub: Seq<char>,
    exp: u64,
    video: Seq<Member>,
    metadata: Option<Seq<char>>,
)
    ensures
        ({
            let members = media_members(api_key, sub, exp, video, metadata);
            &&& members.len() == if metadata is Some { 5int } else { 4 }
            &&& members[0] == ("iss"@, json_string(api_key))
            &&& members[1] == ("sub"@, json_string(sub))
            &&& members[2] == ("exp"@, decimal_text(exp as nat))
            &&& members[3] == ("video"@, json_object(video))
            &&& metadata is Some ==> members[4] == ("metadata"@, json_string(metadata->0))
        }),
{
}

} // verus!
