use std::time::{SystemTime, UNIX_EPOCH};

use voice_room::auth::{
    bearer_token, check_webhook_claims, claims_identity, host_ok, is_online_host, is_participant,
    participant_token, resume_token, resume_token_participant_id, server_token, session_claims,
    session_identity, session_token, verify_webhook, webhook_event, WebhookRejection,
};
use voice_room::claims::{claim_fields, is_repeated, read_field};
use voice_room::clock::{parse_time, steady_instant, time_text, utc_now, utc_text};
use voice_room::crypto::{
    check_password, hash_secret, hash_with_salt, random_salt, random_token, sign, text_digest,
    verify_secret,
};
use voice_room::egress::{
    egress_signature, signed_callback_url, twirp_url, verify_egress_signature, ActiveStreams,
    EgressQuery,
};
use voice_room::ids::{
    livekit_identity, new_id, parse_uuid, participant_of_identity, uuid_text,
};
use voice_room::json::{document, lookup, quote, FoundMember, Json, ObjectWriter};
use voice_room::jwt::{decode, encode};
use voice_room::store::Store;

const KEY: &str = "devkey";
const SECRET: &str = "a shared secret of some length";
const ID: u128 = 0x0123_4567_89ab_4def_8123_4567_89ab_cdef;
const GENERATION: u128 = 0xfedc_ba98_7654_4321_8fed_cba9_8765_4321;

fn now_seconds() -> u64 {
    SystemTime::now().duration_since(UNIX_EPOCH).unwrap().as_secs()
}

fn found_text(text: &str, name: &str) -> Option<String> {
    match lookup(text, name) {
        FoundMember::Text(t) => Some(t),
        _ => None,
    }
}

#[test]
fn identifiers_are_written_and_read() {
    assert_eq!(uuid_text(ID), "01234567-89ab-4def-8123-456789abcdef");
    assert_eq!(uuid_text(0), "00000000-0000-0000-0000-000000000000");
    assert_eq!(parse_uuid("01234567-89AB-4DEF-8123-456789ABCDEF"), Some(ID));
    assert_eq!(parse_uuid("0123456789ab4def8123456789abcdef"), Some(ID));
    assert_eq!(parse_uuid("01234567-89ab-4def-8123-456789abcde"), None);
    assert_eq!(parse_uuid(""), None);
    assert_eq!(parse_uuid(&uuid_text(u128::MAX)), Some(u128::MAX));
}

#[test]
fn fresh_identifiers_are_random_uuids() {
    let id = new_id();
    let text = uuid_text(id);
    assert_eq!(text.as_bytes()[14], b'4');
    assert!(matches!(text.as_bytes()[19], b'8' | b'9' | b'a' | b'b'));
    assert_ne!(new_id(), new_id());
}

#[test]
fn identity_names_the_participant() {
    assert_eq!(livekit_identity(ID), "p_0123456789ab4def8123456789abcdef");
    assert_eq!(participant_of_identity(&livekit_identity(ID)), Some(ID));
    assert_eq!(participant_of_identity("0123456789ab4def8123456789abcdef"), None);
    assert_eq!(participant_of_identity("p_nobody"), None);
}

#[test]
fn instants_are_written_and_read() {
    assert_eq!(time_text(0).as_deref(), Some("1970-01-01T00:00:00+00:00"));
    assert_eq!(
        time_text(1_700_000_000_500_000_000).as_deref(),
        Some("2023-11-14T22:13:20.500+00:00")
    );
    assert_eq!(
        parse_time("2023-11-14T23:13:20.5+01:00"),
        Some(1_700_000_000_500_000_000)
    );
    assert_eq!(parse_time("yesterday"), None);
    assert_eq!(time_text(-1).as_deref(), Some("1969-12-31T23:59:59.999999999+00:00"));
    assert_eq!(parse_time("1969-12-31T23:59:59.999999999+00:00"), Some(-1));
    let first = -62_167_219_200_000_000_000;
    assert_eq!(time_text(first).as_deref(), Some("0000-01-01T00:00:00+00:00"));
    assert_eq!(parse_time(&time_text(first).unwrap()), Some(first));
    assert_eq!(time_text(first - 1).as_deref(), Some("-0001-12-31T23:59:59.999999999+00:00"));
    assert_eq!(parse_time("-0001-12-31T23:59:59.999999999+00:00"), None);
    let earliest = -8_334_601_228_800_000_000_000;
    assert_eq!(time_text(earliest).as_deref(), Some("-262143-01-01T00:00:00+00:00"));
    assert_eq!(time_text(earliest - 1), None);
    assert_eq!(utc_text(earliest).as_deref(), Some("-262143-01-01T00:00:00Z"));
    assert_eq!(utc_text(earliest - 1), None);
    let latest = 8_210_266_876_799_999_999_999;
    assert_eq!(time_text(latest).as_deref(), Some("+262142-12-31T23:59:59.999999999+00:00"));
    assert_eq!(time_text(latest + 1), None);
    assert_eq!(utc_text(latest).as_deref(), Some("+262142-12-31T23:59:59.999999999Z"));
    assert_eq!(utc_text(latest + 1), None);
    assert_eq!(utc_text(1_700_000_000_500_000_000).as_deref(), Some("2023-11-14T22:13:20.500Z"));
    assert_eq!(parse_time(&utc_text(-1).unwrap()), Some(-1));
    assert_eq!(steady_instant(5, 7), 12);
    assert_eq!(
        time_text(253_402_300_800_000_000_000).as_deref(),
        Some("+10000-01-01T00:00:00+00:00")
    );
    let last = 253_402_300_799_999_999_999;
    assert_eq!(parse_time(&time_text(last).unwrap()), Some(last));
    let now = utc_now();
    assert_eq!(parse_time(&time_text(now).unwrap()), Some(now));
}

#[test]
fn text_order_of_instants_is_their_order() {
    let instants: [i128; 5] = [0, 1, 500_000_000, 500_000_001, 1_000_000_000];
    let texts: Vec<String> = instants.iter().map(|i| time_text(*i).unwrap()).collect();
    let mut sorted = texts.clone();
    sorted.sort();
    assert_eq!(sorted, texts);
}

#[test]
fn strings_are_quoted_as_json() {
    assert_eq!(quote("plain"), "\"plain\"");
    assert_eq!(
        quote("\" \\ \n \r \t \u{8} \u{c} \u{1f} \u{7f} \u{e9}"),
        "\"\\\" \\\\ \\n \\r \\t \\b \\f \\u001f \u{7f} \u{e9}\""
    );
    for c in (0..0x300u32).filter_map(char::from_u32) {
        let text = c.to_string();
        let parsed: String = serde_json::from_str(&quote(&text)).unwrap();
        assert_eq!(parsed, text);
    }
}

#[test]
fn objects_are_written_member_by_member() {
    assert_eq!(ObjectWriter::new().finish(), "{}");
    let mut writer = ObjectWriter::new();
    writer.text("a", "x\"y");
    writer.number("b", u64::MAX);
    writer.flag("c", true);
    writer.flag("d", false);
    writer.raw("e", "[1]");
    let text = writer.finish();
    assert_eq!(
        text,
        "{\"a\":\"x\\\"y\",\"b\":18446744073709551615,\"c\":true,\"d\":false,\"e\":[1]}"
    );
    assert_eq!(found_text(&text, "a").as_deref(), Some("x\"y"));
    assert!(matches!(lookup(&text, "b"), FoundMember::Whole(u64::MAX)));
    assert!(matches!(lookup(&text, "c"), FoundMember::Other));
    assert!(matches!(lookup(&text, "z"), FoundMember::Nothing));
    assert!(matches!(lookup("not json", "a"), FoundMember::Nothing));
    assert!(matches!(lookup("[1]", "a"), FoundMember::Nothing));
}

#[test]
fn members_of_values_are_found() {
    let value = Json::Object(vec![
        ("a".to_string(), Json::Int(1)),
        ("b".to_string(), Json::Text("x".to_string())),
        ("c".to_string(), Json::Int(i64::MAX as i128 + 1)),
    ]);
    assert_eq!(value.get("a").unwrap().as_i64(), Some(1));
    assert_eq!(value.get("c").unwrap().as_i64(), None);
    assert_eq!(value.get_text("b"), Some("x"));
    assert_eq!(value.get_text("a"), None);
    assert!(value.get("d").is_none());
    assert!(Json::Null.get("a").is_none());
    assert_eq!(Json::Decimal("1.5".to_string()).as_i64(), None);
}

#[test]
fn session_token_names_participant_and_connection() {
    let token = session_token(KEY, SECRET, ID, GENERATION, now_seconds()).unwrap();
    let header = format!("Bearer {token}");
    assert_eq!(session_identity(Some(&header), KEY, SECRET), Some((ID, GENERATION)));
    assert_eq!(session_identity(Some(&token), KEY, SECRET), None);
    assert_eq!(session_identity(None, KEY, SECRET), None);
    assert_eq!(session_identity(Some(&header), KEY, "another secret"), None);
    assert_eq!(session_identity(Some(&header), "otherkey", SECRET), None);
    assert_eq!(session_identity(Some(&format!("{header}x")), KEY, SECRET), None);
}

#[test]
fn session_token_lasts_twelve_hours() {
    let token = session_token(KEY, SECRET, ID, GENERATION, 1_000).unwrap();
    let claims = serde_json::from_slice::<serde_json::Value>(
        &base64::Engine::decode(
            &base64::engine::general_purpose::URL_SAFE_NO_PAD,
            token.split('.').nth(1).unwrap(),
        )
        .unwrap(),
    )
    .unwrap();
    assert_eq!(claims["exp"], 44_200);
    assert_eq!(claims["iss"], KEY);
    assert_eq!(claims["sub"], uuid_text(ID));
    assert_eq!(claims["generation"], uuid_text(GENERATION));
    assert_eq!(claims["purpose"], "voice-chat-session");
    assert_eq!(session_identity(Some(&format!("Bearer {token}")), KEY, SECRET), None);
}

#[test]
fn media_token_is_no_session_token() {
    let token = participant_token(KEY, SECRET, "p_1", GENERATION, now_seconds()).unwrap();
    assert_eq!(session_identity(Some(&format!("Bearer {token}")), KEY, SECRET), None);
}

#[test]
fn claims_that_lack_something_name_nobody() {
    let id = uuid_text(ID);
    let connection = uuid_text(GENERATION);
    let whole = format!(
        "{{\"iss\":\"k\",\"sub\":\"{id}\",\"exp\":5,\"generation\":\"{connection}\",\"purpose\":\"voice-chat-session\"}}"
    );
    assert_eq!(claims_identity(&whole, "k"), Some((ID, GENERATION)));
    assert_eq!(claims_identity(&whole, "other"), None);
    for (from, to) in [
        ("\"exp\":5", "\"exp\":5.5"),
        ("voice-chat-session", "another-purpose"),
        ("\"sub\":\"0", "\"sub\":\"x"),
        ("\"generation\":\"f", "\"generation\":\"x"),
        ("\"iss\":\"k\",", ""),
    ] {
        assert_eq!(claims_identity(&whole.replace(from, to), "k"), None);
    }
}

#[test]
fn media_token_grants_the_room_and_nothing_else() {
    let token = participant_token(KEY, SECRET, "p_1", GENERATION, now_seconds()).unwrap();
    let claims = decode(&token, SECRET, KEY).unwrap();
    let value: serde_json::Value = serde_json::from_str(&claims).unwrap();
    assert_eq!(value["iss"], KEY);
    assert_eq!(value["sub"], "p_1");
    assert_eq!(value["video"]["room"], "main");
    assert_eq!(value["video"]["roomJoin"], true);
    assert_eq!(value["video"]["canPublish"], true);
    assert_eq!(value["video"]["canSubscribe"], true);
    assert_eq!(value["video"]["canPublishData"], false);
    assert_eq!(value["video"]["roomAdmin"], false);
    assert_eq!(value["video"]["roomRecord"], false);
    assert_eq!(
        value["metadata"],
        format!("{{\"connection_generation\":\"{}\"}}", uuid_text(GENERATION))
    );
}

#[test]
fn server_token_may_administrate_and_record() {
    let now = now_seconds();
    let token = server_token(KEY, SECRET, now).unwrap();
    let claims = decode(&token, SECRET, KEY).unwrap();
    let value: serde_json::Value = serde_json::from_str(&claims).unwrap();
    assert_eq!(value["sub"], "voice-recorder");
    assert_eq!(value["exp"], now + 300);
    assert_eq!(value["video"]["roomJoin"], false);
    assert_eq!(value["video"]["roomAdmin"], true);
    assert_eq!(value["video"]["roomRecord"], true);
    assert!(value.get("metadata").is_none());
}

#[test]
fn claims_must_be_json() {
    assert!(encode("not json", SECRET).is_none());
    assert!(decode("not.a.token", SECRET, KEY).is_none());
}

#[test]
fn bearer_prefix_is_needed() {
    assert_eq!(bearer_token(Some("Bearer abc")), Some("abc"));
    assert_eq!(bearer_token(Some("bearer abc")), None);
    assert_eq!(bearer_token(Some("")), None);
    assert_eq!(bearer_token(None), None);
}

#[test]
fn control_needs_an_acting_connection() {
    let mut store = Store::new();
    let identity = Some((ID, GENERATION));
    assert!(!is_participant(&store, identity));
    store.begin_connection(ID, GENERATION, 0);
    assert!(is_participant(&store, identity));
    assert!(!is_participant(&store, Some((ID, 1))));
    assert!(!is_participant(&store, None));
    assert!(!is_online_host(&store, identity));
    store.claim_session_host(ID, 9, 0).unwrap();
    assert!(is_online_host(&store, identity));
    store.mark_connection_reconnecting(ID, GENERATION, 10, 1);
    assert!(is_participant(&store, identity));
    assert!(!is_online_host(&store, identity));
    store.mark_connection_left(ID, GENERATION, 2);
    assert!(!is_participant(&store, identity));
}

#[test]
fn resume_token_names_its_participant() {
    let token = resume_token(ID, "tail.with.dots");
    assert_eq!(token, format!("{}.tail.with.dots", uuid_text(ID)));
    assert_eq!(resume_token_participant_id(&token), Some(ID));
    assert_eq!(resume_token_participant_id(&uuid_text(ID)), None);
    assert_eq!(resume_token_participant_id("x.y"), None);
    assert_eq!(resume_token_participant_id(""), None);
}

#[test]
fn hash_accepts_its_secret_only() {
    let hash = hash_secret("open sesame").unwrap();
    assert!(hash.starts_with("$argon2id$"));
    assert!(verify_secret("open sesame", &hash));
    assert!(!verify_secret("open", &hash));
    assert!(!verify_secret("open sesame", "no hash"));
    assert!(host_ok(Some("Bearer open sesame"), &hash));
    assert!(!host_ok(Some("open sesame"), &hash));
    assert!(!host_ok(None, &hash));
}

#[test]
fn salt_decides_the_hash() {
    let salt = random_salt();
    assert_eq!(salt.len(), 22);
    let first = hash_with_salt("secret", &salt).unwrap();
    assert_eq!(hash_with_salt("secret", &salt).unwrap(), first);
    assert_ne!(hash_with_salt("secret", &random_salt()).unwrap(), first);
    assert!(hash_with_salt("secret", "!").is_none());
}

#[test]
fn random_tokens_are_letters_and_digits() {
    let token = random_token(48);
    assert_eq!(token.len(), 48);
    assert!(token.chars().all(|c| c.is_ascii_alphanumeric()));
    assert_eq!(random_token(0), "");
    assert_ne!(random_token(48), random_token(48));
}

#[test]
fn passwords_are_held_against_each_other() {
    assert!(check_password("p\u{e4}ss", "p\u{e4}ss"));
    assert!(!check_password("pass", "Pass"));
    assert_eq!(text_digest("abc")[..4], [0xba, 0x78, 0x16, 0xbf]);
    assert_eq!(text_digest("").len(), 32);
}

#[test]
fn signature_is_hmac_in_url_safe_base64() {
    assert_eq!(
        sign("key", "The quick brown fox jumps over the lazy dog"),
        "97yD9DBThCSxMpjmqm-xQ-9NWaFJRhdZl0edvC0aPNg"
    );
}

#[test]
fn callback_is_accepted_until_it_expires() {
    let url = signed_callback_url("ws://server:3000", SECRET, ID, "TR_1", GENERATION, 1_000);
    let sig = egress_signature(SECRET, ID, "TR_1", GENERATION, 1_300);
    assert_eq!(
        sig,
        sign(SECRET, &format!("{}:TR_1:{}:1300", uuid_text(ID), uuid_text(GENERATION)))
    );
    assert_eq!(
        url,
        format!(
            "ws://server:3000/internal/egress/{}/TR_1?participant_id={}&exp=1300&sig={}",
            uuid_text(ID),
            uuid_text(GENERATION),
            sig
        )
    );
    let query = EgressQuery { participant_id: GENERATION, exp: 1_300, sig };
    assert!(verify_egress_signature(SECRET, ID, "TR_1", &query, 1_000));
    assert!(verify_egress_signature(SECRET, ID, "TR_1", &query, 1_300));
    assert!(!verify_egress_signature(SECRET, ID, "TR_1", &query, 1_301));
    assert!(!verify_egress_signature(SECRET, ID, "TR_2", &query, 1_000));
    assert!(!verify_egress_signature("other", ID, "TR_1", &query, 1_000));
    let other = EgressQuery { participant_id: ID, exp: 1_300, sig: query.sig.clone() };
    assert!(!verify_egress_signature(SECRET, ID, "TR_1", &other, 1_000));
}

#[test]
fn media_server_methods_have_an_address() {
    assert_eq!(
        twirp_url("http://livekit:7880//", "Egress/StopEgress"),
        "http://livekit:7880/twirp/livekit.Egress/StopEgress"
    );
}

#[test]
fn stream_is_open_once() {
    let mut active = ActiveStreams::new();
    assert!(active.insert(1, "TR_a"));
    assert!(!active.insert(1, "TR_a"));
    assert!(active.insert(2, "TR_a"));
    assert!(active.any_of(1));
    active.remove(1, "TR_a");
    active.remove(1, "TR_a");
    assert!(!active.any_of(1));
    assert!(active.any_of(2));
    assert!(active.insert(1, "TR_a"));
}

fn webhook_header(body_hash: &str, iss: Option<&str>) -> String {
    let mut writer = ObjectWriter::new();
    if let Some(iss) = iss {
        writer.text("iss", iss);
    }
    writer.number("exp", now_seconds() + 60);
    writer.text("sha256", body_hash);
    encode(&writer.finish(), SECRET).unwrap()
}

#[test]
fn webhook_must_be_vouched_for() {
    let body = "{\"event\":\"x\"}";
    let digest = text_digest(body);
    let standard =
        base64::Engine::encode(&base64::engine::general_purpose::STANDARD, &digest);
    let url_safe =
        base64::Engine::encode(&base64::engine::general_purpose::URL_SAFE_NO_PAD, &digest);
    for hash in [&standard, &url_safe] {
        let token = webhook_header(hash, Some(KEY));
        assert_eq!(verify_webhook(Some(&token), body, KEY, SECRET), Ok(()));
        assert_eq!(
            verify_webhook(Some(&format!("Bearer {token}")), body, KEY, SECRET),
            Ok(())
        );
    }
    assert_eq!(
        verify_webhook(None, body, KEY, SECRET),
        Err(WebhookRejection::MissingAuthorization)
    );
    let token = webhook_header(&standard, Some(KEY));
    assert_eq!(
        verify_webhook(Some(&token), "another body", KEY, SECRET),
        Err(WebhookRejection::HashMismatch)
    );
    assert_eq!(
        verify_webhook(Some(&token), body, KEY, "other secret"),
        Err(WebhookRejection::InvalidToken)
    );
    assert_eq!(
        verify_webhook(Some(&webhook_header(&standard, Some("other"))), body, KEY, SECRET),
        Err(WebhookRejection::InvalidToken)
    );
    assert_eq!(
        verify_webhook(Some(&webhook_header(&standard, None)), body, KEY, SECRET),
        Err(WebhookRejection::InvalidToken)
    );
    assert_eq!(
        verify_webhook(Some(&webhook_header("!", Some(KEY))), body, KEY, SECRET),
        Err(WebhookRejection::UnreadableHash)
    );
    assert_eq!(
        check_webhook_claims("{\"iss\":\"devkey\"}", KEY, body),
        Err(WebhookRejection::InvalidToken)
    );
}

#[test]
fn claims_that_never_expire_are_always_read() {
    let claims = session_claims(KEY, ID, u64::MAX, GENERATION);
    let token = encode(&claims, SECRET).unwrap();
    assert_eq!(decode(&token, SECRET, KEY), Some(claims));
    assert_eq!(
        session_identity(Some(&format!("Bearer {token}")), KEY, SECRET),
        Some((ID, GENERATION))
    );
    let spaced = format!("{{ \"exp\" : {}, \"iss\" : \"{KEY}\" }}", u64::MAX);
    let token = encode(&spaced, SECRET).unwrap();
    assert_eq!(decode(&token, SECRET, KEY), Some(spaced));
    assert_eq!(decode(&token, SECRET, "otherkey"), None);
    let expired = session_claims(KEY, ID, 1, GENERATION);
    let token = encode(&expired, SECRET).unwrap();
    assert_eq!(decode(&token, SECRET, KEY), None);
}

#[test]
fn checked_webhook_gives_its_event() {
    let header = |body: &str, exp: u64| {
        let digest = text_digest(body);
        let hash = base64::Engine::encode(&base64::engine::general_purpose::STANDARD, digest);
        let claims = format!(
            "{{\"iss\":[\"other\",\"{KEY}\"],\"exp\":{exp},\"sha256\":\"{hash}\"}}"
        );
        encode(&claims, SECRET).unwrap()
    };
    let body = "{\"id\":\"EV\",\"event\":\"room_started\",\"n\":[1,-2,0.5,true,null]}";
    let event = webhook_event(Some(&header(body, u64::MAX)), body, KEY, SECRET).unwrap();
    assert_eq!(event.get_text("id"), Some("EV"));
    assert_eq!(event.get_text("event"), Some("room_started"));
    let broken = "{\"id\":";
    let rejected = webhook_event(Some(&header(broken, u64::MAX)), broken, KEY, SECRET);
    assert_eq!(rejected.unwrap_err(), WebhookRejection::UnreadableBody);
    let rejected = webhook_event(Some(&header(body, u64::MAX)), broken, KEY, SECRET);
    assert_eq!(rejected.unwrap_err(), WebhookRejection::HashMismatch);
    let rejected = webhook_event(Some(&header(body, 1)), body, KEY, SECRET);
    assert_eq!(rejected.unwrap_err(), WebhookRejection::InvalidToken);
    let rejected = webhook_event(None, body, KEY, SECRET);
    assert_eq!(rejected.unwrap_err(), WebhookRejection::MissingAuthorization);
}

#[test]
fn documents_are_read_whole() {
    let read = document("{\"b\":[{\"c\":\"\\u00e4\"},1e3,18446744073709551615],\"a\":null}").unwrap();
    let Json::Object(members) = &read else { panic!("not an object") };
    assert_eq!(members[0].0, "a");
    assert!(matches!(members[0].1, Json::Null));
    let Some(Json::List(items)) = read.get("b") else { panic!("not a list") };
    assert_eq!(items[0].get_text("c"), Some("\u{e4}"));
    assert!(matches!(&items[1], Json::Decimal(text) if text == "1000.0"));
    assert!(matches!(items[2], Json::Int(18446744073709551615)));
    assert!(document("[1,]").is_none());
    assert!(matches!(document("true"), Some(Json::Bool(true))));
}

#[test]
fn private_name_of_raw_values_is_no_member() {
    let text = "{\"$serde_json::private::RawValue\":\"5\"}";
    assert!(matches!(lookup(text, "$serde_json::private::RawValue"), FoundMember::Nothing));
}

#[test]
fn lists_of_texts_are_found() {
    assert!(matches!(
        lookup("{\"iss\":[\"a\",\"b\"]}", "iss"),
        FoundMember::Texts(list) if list == ["a", "b"]
    ));
    assert!(matches!(lookup("{\"iss\":[\"a\",1]}", "iss"), FoundMember::Other));
}

fn nested_deeply() -> String {
    format!("{}{}", "[".repeat(500), "]".repeat(500))
}

#[test]
fn repeated_claim_is_refused() {
    let claims = session_claims(KEY, ID, u64::MAX, GENERATION);
    assert_eq!(claims_identity(&claims, KEY), Some((ID, GENERATION)));
    let body = claims.trim_end_matches('}');
    for field in ["purpose", "generation", "sub", "iss", "exp", "p\\u0075rpose"] {
        let twice = format!("{body},\"{field}\":1}}");
        assert_eq!(claims_identity(&twice, KEY), None);
    }
    let more = format!("{body},\"other\":1, \"other\" : {} }} ", nested_deeply());
    assert_eq!(claims_identity(&more, KEY), Some((ID, GENERATION)));
    let token = encode(&more, SECRET).unwrap();
    assert_eq!(
        session_identity(Some(&format!("Bearer {token}")), KEY, SECRET),
        Some((ID, GENERATION))
    );
    assert_eq!(claims_identity("[]", KEY), None);
    assert_eq!(claims_identity("{}", KEY), None);
    assert_eq!(claims_identity(" { } ", KEY), None);
}

#[test]
fn webhook_with_two_digests_is_refused() {
    let hash = base64::Engine::encode(
        &base64::engine::general_purpose::STANDARD,
        text_digest("body"),
    );
    let once = format!(
        "{{\"x\":{},\"iss\":\"{KEY}\",\"sha256\":\"{hash}\"}}",
        nested_deeply()
    );
    assert_eq!(check_webhook_claims(&once, KEY, "body"), Ok(()));
    let twice = format!("{{\"sha256\":\"{hash}\",\"iss\":\"{KEY}\",\"sha256\":\"{hash}\"}}");
    assert_eq!(
        check_webhook_claims(&twice, KEY, "body"),
        Err(WebhookRejection::InvalidToken)
    );
}

#[test]
fn fields_of_claims_are_read_in_order() {
    let fields = claim_fields("{\"b\" : [1, 2] ,\n\"\\u0061\":\"x\",\"b\":null}").unwrap();
    assert_eq!(
        fields,
        vec![
            ("b".to_string(), "[1, 2]".to_string()),
            ("a".to_string(), "\"x\"".to_string()),
            ("b".to_string(), "null".to_string()),
        ]
    );
    assert!(is_repeated(&fields, "b"));
    assert!(!is_repeated(&fields, "a"));
    assert!(matches!(read_field(&fields, "a"), FoundMember::Text(text) if text == "x"));
    assert!(matches!(read_field(&fields, "c"), FoundMember::Nothing));
    assert!(claim_fields("{\"a\":1").is_none());
    assert!(claim_fields("{\"a\":1} x").is_none());
    assert!(claim_fields("5").is_none());
}

#[test]
fn private_name_inside_a_document_is_kept() {
    let read = document("{\"x\":{\"z\":1,\"$serde_json::private::RawValue\":\"5\"}}").unwrap();
    let inner = read.get("x").unwrap();
    assert_eq!(inner.get_text("$serde_json::private::RawValue"), Some("5"));
    assert_eq!(inner.get("z").unwrap().as_i64(), Some(1));
}
