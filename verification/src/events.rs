//! What the media server says: webhook events, track lists and replies.

use vstd::prelude::*;

use crate::auth::{connection_metadata, found_id};
use crate::ids::{identity_participant, hyphenated_text, parse_uuid, participant_of_identity};
use crate::json::{is_found, json_lookup, json_string, lookup, plain, plain_value, Found, FoundMember, Json};
use crate::store::Store;
use crate::text::{ascii_lower, same_text};

verus! {

/// A text with ASCII capitals taken as small letters.
pub open spec fn lower(text: Seq<char>) -> Seq<char> {
    text.map_values(|c: char| ascii_lower(c))
}

/// The member under the first name, or where there is none that under the second.
pub open spec fn either_member(value: Json, first: Seq<char>, second: Seq<char>) -> Option<Json> {
    match value.member(first) {
        Some(found) => Some(found),
        None => value.member(second),
    }
}

/// The text of the member under the first name, or where there is no such member of that
/// under the second.
pub open spec fn either_text(value: Json, first: Seq<char>, second: Seq<char>) -> Option<Seq<char>> {
    match either_member(value, first, second) {
        Some(found) => found.text(),
        None => None,
    }
}

/// The text of the member under one of two names.
fn get_either<'a>(value: &'a Json, first: &str, second: &str) -> (text: Option<&'a str>)
    ensures
        match text {
            Some(t) => either_text(*value, first@, second@) == Some(t@),
            None => either_text(*value, first@, second@) is None,
        },
{
    match value.get(first) {
        Some(found) => found.as_text(),
        None => value.get_text(second),
    }
}

/// Whether a track kind is audio.
pub open spec fn audio_kind(kind: Seq<char>) -> bool {
    lower(kind) == lower("audio"@) || kind == "KIND_AUDIO"@ || kind == "1"@
}

/// Whether a track source is a microphone.
pub open spec fn microphone_source(source: Json) -> bool {
    match source.text() {
        Some(text) => lower(text) == lower("microphone"@) || text == "MICROPHONE"@ || text == "1"@,
        None => source.whole() == Some(1i64),
    }
}

/// Whether a track is that of a microphone.
pub open spec fn microphone(track: Json) -> bool {
    &&& match either_text(track, "type"@, "kind"@) {
        Some(kind) => audio_kind(kind),
        None => audio_kind(Seq::empty()),
    }
    &&& match track.member("source"@) {
        Some(source) => microphone_source(source),
        None => false,
    }
}

/// Whether a track is that of a microphone.
pub fn is_microphone_track(track: &Json) -> (yes: bool)
    ensures
        yes == microphone(*track),
{
    let audio = match get_either(track, "type", "kind") {
        Some(kind) => kind.eq_ignore_ascii_case("audio") || same_text(kind, "KIND_AUDIO")
            || same_text(kind, "1"),
        None => {
            proof {
                reveal_strlit("audio");
                reveal_strlit("KIND_AUDIO");
                reveal_strlit("1");
                assert(lower(Seq::<char>::empty()).len() == 0);
                assert(lower("audio"@).len() == 5);
            }
            false
        },
    };
    let microphone = match track.get("source") {
        Some(source) => match source.as_text() {
            Some(text) => text.eq_ignore_ascii_case("microphone") || same_text(text, "MICROPHONE")
                || same_text(text, "1"),
            None => match source.as_i64() {
                Some(number) => number == 1,
                None => false,
            },
        },
        None => false,
    };
    audio && microphone
}

/// The participant that an event is about.
pub open spec fn event_participant(event: Json) -> Option<u128> {
    match event.member("participant"@) {
        Some(participant) => match participant.member_text("identity"@) {
            Some(identity) => identity_participant(identity),
            None => None,
        },
        None => None,
    }
}

/// The participant that an event is about.
pub fn participant_id_from_event(event: &Json) -> (id: Option<u128>)
    ensures
        id == event_participant(*event),
{
    match event.get("participant") {
        Some(participant) => match participant.get_text("identity") {
            Some(identity) => participant_of_identity(identity),
            None => None,
        },
        None => None,
    }
}

/// The track that an event names.
pub open spec fn event_track(event: Json) -> Option<Seq<char>> {
    match event.member("track"@) {
        Some(track) => track.member_text("sid"@),
        None => None,
    }
}

/// The track that an event names.
pub fn track_sid_from_event(event: &Json) -> (sid: Option<&str>)
    ensures
        match sid {
            Some(s) => event_track(*event) == Some(s@),
            None => event_track(*event) is None,
        },
{
    match event.get("track") {
        Some(track) => track.get_text("sid"),
        None => None,
    }
}

/// The metadata that an event gives for its participant.
pub open spec fn event_metadata(event: Json) -> Option<Seq<char>> {
    match event.member("participant"@) {
        Some(participant) => participant.member_text("metadata"@),
        None => None,
    }
}

/// The connection that an event is about.
pub open spec fn event_generation(event: Json) -> Option<u128> {
    match event_metadata(event) {
        Some(metadata) => found_id(json_lookup(metadata, "connection_generation"@)),
        None => None,
    }
}

/// The connection that an event is about. An event whose metadata are those of a
/// participant's media token is about the connection of that token.
pub fn connection_generation_from_event(event: &Json) -> (generation: Option<u128>)
    ensures
        generation == event_generation(*event),
        forall|known: u128|
            event_metadata(*event) == Some(#[trigger] connection_metadata(known)) ==> generation
                == Some(known),
{
    let metadata = match event.get("participant") {
        Some(participant) => match participant.get_text("metadata") {
            Some(metadata) => metadata,
            None => {
                return None;
            },
        },
        None => {
            return None;
        },
    };
    let found = lookup(metadata, "connection_generation");
    proof {
        assert forall|known: u128| metadata@ == #[trigger] connection_metadata(known) implies found@
            == Found::Text(hyphenated_text(known)) by {
            let members = seq![
                ("connection_generation"@, json_string(hyphenated_text(known))),
            ];
            assert(plain_value(members[0].1));
            reveal_strlit("connection_generation");
            reveal_strlit("$serde_json::private::RawValue");
            assert(members[0].0.len() != "$serde_json::private::RawValue"@.len());
            assert(plain(members));
            assert(members[0].0 == "connection_generation"@);
            assert(is_found(members[0].1, Found::Text(hyphenated_text(known))));
        }
    }
    match found {
        FoundMember::Text(text) => parse_uuid(text.as_str()),
        _ => None,
    }
}

/// Who an event is about: the participant and the connection, where they can be told.
#[derive(Clone, Copy, Debug, PartialEq, Eq, Structural)]
pub struct EventSource {
    pub participant: Option<u128>,
    pub generation: Option<u128>,
}

/// Who an event is about.
pub open spec fn source_of(event: Json) -> EventSource {
    EventSource { participant: event_participant(event), generation: event_generation(event) }
}

/// Who an event is about.
pub fn event_source(event: &Json) -> (source: EventSource)
    ensures
        source == source_of(*event),
{
    EventSource {
        participant: participant_id_from_event(event),
        generation: connection_generation_from_event(event),
    }
}

/// The participant and the track of an event about a microphone that belongs to a
/// current connection.
pub open spec fn event_microphone(m: crate::model::StoreModel, event: Json, source: EventSource) -> Option<
    (u128, Seq<char>),
> {
    match event.member("track"@) {
        None => None,
        Some(track) => if !microphone(track) {
            None
        } else {
            match (source.participant, source.generation, track.member_text("sid"@)) {
                (Some(participant_id), Some(generation), Some(sid)) => if m.current(
                    participant_id,
                    generation,
                ) {
                    Some((participant_id, sid))
                } else {
                    None
                },
                _ => None,
            }
        },
    }
}

/// The participant and the track of an event about a microphone that belongs to a
/// current connection.
pub fn microphone_track_of(store: &Store, event: &Json, source: EventSource) -> (found: Option<
    (u128, String),
>)
    requires
        store.wf(),
    ensures
        match found {
            Some((participant_id, sid)) => event_microphone(store@, *event, source) == Some(
                (participant_id, sid@),
            ),
            None => event_microphone(store@, *event, source) is None,
        },
{
    let track = match event.get("track") {
        Some(track) => track,
        None => {
            return None;
        },
    };
    if !is_microphone_track(track) {
        return None;
    }
    match (source.participant, source.generation) {
        (Some(participant_id), Some(generation)) => {
            if store.connection_state(participant_id, generation).is_none() {
                return None;
            }
            match track.get_text("sid") {
                Some(sid) => Some((participant_id, sid.to_owned())),
                None => None,
            }
        },
        _ => None,
    }
}

/// The participant and the track of an event about a microphone that belongs to a
/// current connection.
pub fn microphone_track_from_event(store: &Store, event: &Json) -> (found: Option<(u128, String)>)
    requires
        store.wf(),
    ensures
        match found {
            Some((participant_id, sid)) => event_microphone(store@, *event, source_of(*event))
                == Some((participant_id, sid@)),
            None => event_microphone(store@, *event, source_of(*event)) is None,
        },
{
    microphone_track_of(store, event, event_source(event))
}

/// The microphone tracks in a list of tracks, under the participant they belong to.
pub open spec fn microphones(participant_id: u128, tracks: Seq<Json>) -> Seq<(u128, Seq<char>)>
    decreases tracks.len(),
{
    if tracks.len() == 0 {
        Seq::empty()
    } else {
        let before = microphones(participant_id, tracks.drop_last());
        let last = tracks.last();
        match last.member_text("sid"@) {
            Some(sid) => if microphone(last) {
                before.push((participant_id, sid))
            } else {
                before
            },
            None => before,
        }
    }
}

/// The elements of a list member.
pub open spec fn member_items(value: Json, name: Seq<char>) -> Seq<Json> {
    match value.member(name) {
        Some(list) => list.items(),
        None => Seq::empty(),
    }
}

/// The participant that a listed participant is.
pub open spec fn listed_participant(value: Json) -> Option<u128> {
    match value.member_text("identity"@) {
        Some(identity) => identity_participant(identity),
        None => None,
    }
}

/// The microphone tracks of listed participants.
pub open spec fn listed_microphones(participants: Seq<Json>) -> Seq<(u128, Seq<char>)>
    decreases participants.len(),
{
    if participants.len() == 0 {
        Seq::empty()
    } else {
        let before = listed_microphones(participants.drop_last());
        let last = participants.last();
        match listed_participant(last) {
            Some(id) => before + microphones(id, member_items(last, "tracks"@)),
            None => before,
        }
    }
}

/// What a list of tracks holds.
pub open spec fn track_views(tracks: Seq<(u128, String)>) -> Seq<(u128, Seq<char>)> {
    tracks.map_values(|t: (u128, String)| (t.0, t.1@))
}

/// The elements of a list member.
fn items<'a>(value: &'a Json, name: &str) -> (list: Option<&'a Vec<Json>>)
    ensures
        match list {
            Some(l) => l@ == member_items(*value, name@),
            None => member_items(*value, name@).len() == 0,
        },
{
    match value.get(name) {
        Some(Json::List(list)) => Some(list),
        _ => None,
    }
}

/// Adds the microphone tracks in a list of tracks.
pub fn push_microphones(participant_id: u128, tracks: &Vec<Json>, out: &mut Vec<(u128, String)>)
    ensures
        track_views(final(out)@) == track_views(old(out)@) + microphones(participant_id, tracks@),
{
    let count: usize = tracks.len();
    let mut i: usize = 0;
    proof {
        assert(track_views(out@) =~= track_views(out@) + microphones(
            participant_id,
            tracks@.take(0),
        ));
    }
    while i < count
        invariant
            count == tracks@.len(),
            i <= count,
            track_views(out@) == track_views(old(out)@) + microphones(
                participant_id,
                tracks@.take(i as int),
            ),
        decreases count - i,
    {
        let track = &tracks[i];
        proof {
            assert(tracks@.take(i + 1).drop_last() =~= tracks@.take(i as int));
            assert(tracks@.take(i + 1).last() == tracks@[i as int]);
        }
        if is_microphone_track(track) {
            if let Some(sid) = track.get_text("sid") {
                let ghost before = out@;
                let owned = sid.to_owned();
                out.push((participant_id, owned));
                assert(track_views(out@) =~= track_views(before).push((participant_id, sid@)));
                assert(track_views(out@) =~= track_views(old(out)@) + microphones(
                    participant_id,
                    tracks@.take(i + 1),
                ));
            }
        }
        i += 1;
    }
    assert(tracks@.take(count as int) =~= tracks@);
}

/// The microphone tracks in the media server's list of participants.
pub fn list_microphone_tracks(body: &Json) -> (tracks: Vec<(u128, String)>)
    ensures
        track_views(tracks@) == listed_microphones(member_items(*body, "participants"@)),
{
    let mut tracks: Vec<(u128, String)> = Vec::new();
    let participants = match items(body, "participants") {
        Some(participants) => participants,
        None => {
            assert(track_views(tracks@) =~= Seq::empty());
            return tracks;
        },
    };
    let count: usize = participants.len();
    let mut i: usize = 0;
    assert(track_views(tracks@) =~= Seq::empty());
    while i < count
        invariant
            count == participants@.len(),
            i <= count,
            track_views(tracks@) == listed_microphones(participants@.take(i as int)),
        decreases count - i,
    {
        let participant = &participants[i];
        proof {
            assert(participants@.take(i + 1).drop_last() =~= participants@.take(i as int));
            assert(participants@.take(i + 1).last() == participants@[i as int]);
        }
        let identity = match participant.get_text("identity") {
            Some(identity) => participant_of_identity(identity),
            None => None,
        };
        if let Some(participant_id) = identity {
            let listed = items(participant, "tracks");
            match listed {
                Some(list) => {
                    push_microphones(participant_id, list, &mut tracks);
                },
                None => {
                    proof {
                        assert(track_views(tracks@) =~= track_views(tracks@) + microphones(
                            participant_id,
                            member_items(*participant, "tracks"@),
                        ));
                    }
                },
            }
        }
        i += 1;
    }
    assert(participants@.take(count as int) =~= participants@);
    tracks
}

/// The egress that a reply names.
pub fn egress_id_in(payload: &Json) -> (id: Option<String>)
    ensures
        match id {
            Some(e) => either_text(*payload, "egress_id"@, "egressId"@) == Some(e@),
            None => either_text(*payload, "egress_id"@, "egressId"@) is None,
        },
{
    match get_either(payload, "egress_id", "egressId") {
        Some(id) => Some(id.to_owned()),
        None => None,
    }
}

/// What a microphone is: a track whose `type`, or where it has none whose `kind`, is `audio` in
/// whatever capitals, `KIND_AUDIO` or `1`, and whose `source` is `microphone` in whatever
/// capitals, or `1` as a text or as a number.
pub proof fn law_what_a_microphone_is(track: Json)
    ensures
        microphone(track) <==> {
            let kind = match track.member("type"@) {
                Some(value) => value.text(),
                None => track.member_text("kind"@),
            };
            let source = track.member("source"@);
            &&& kind is Some
            &&& reads(kind->0, "audio"@) || kind->0 == "KIND_AUDIO"@ || kind->0 == "1"@
            &&& source is Some
            &&& match source->0 {
                Json::Text(text) => reads(text@, "microphone"@) || text@ == "1"@,
                Json::Int(number) => number == 1,
                _ => false,
            }
        },
{
    reveal_strlit("audio");
    reveal_strlit("KIND_AUDIO");
    reveal_strlit("1");
    reveal_strlit("microphone");
    reveal_strlit("MICROPHONE");
    assert(lower("audio"@).len() == 5);
    assert(lower(Seq::<char>::empty()).len() == 0);
    assert(reads("MICROPHONE"@, "microphone"@));
    if let Some(source) = track.member("source"@) {
        if let Json::Text(text) = source {
            lemma_reads(text@, "microphone"@);
            lemma_reads("MICROPHONE"@, "microphone"@);
        }
    }
    let kind = match track.member("type"@) {
        Some(value) => value.text(),
        None => track.member_text("kind"@),
    };
    if let Some(text) = kind {
        lemma_reads(text, "audio"@);
    }
}

/// Whether a text is a word of small letters, with any of them as capitals.
pub open spec fn reads(text: Seq<char>, word: Seq<char>) -> bool {
    &&& text.len() == word.len()
    &&& forall|i: int|
        0 <= i < word.len() ==> (#[trigger] text[i] == word[i] || text[i] as int + 32
            == word[i] as int)
}

proof fn lemma_reads(text: Seq<char>, word: Seq<char>)
    requires
        forall|i: int| 0 <= i < word.len() ==> 'a' <= #[trigger] word[i] <= 'z',
    ensures
        lower(text) == lower(word) <==> reads(text, word),
{
    if lower(text) == lower(word) {
        assert(lower(text).len() == text.len() && lower(word).len() == word.len());
        assert forall|i: int| 0 <= i < word.len() implies (#[trigger] text[i] == word[i]
            || text[i] as int + 32 == word[i] as int) by {
            assert(lower(text)[i] == ascii_lower(text[i]));
            assert(lower(word)[i] == ascii_lower(word[i]));
        }
    }
    if reads(text, word) {
        assert forall|i: int| 0 <= i < word.len() implies lower(text)[i] == lower(word)[i] by {
            assert('a' <= word[i] <= 'z');
            assert(text[i] == word[i] || text[i] as int + 32 == word[i] as int);
        }
        assert(lower(text) =~= lower(word));
    }
}

/// Every microphone in a list of tracks is found, once for each time it stands there and in
/// that order, and nothing else is: a track adds itself where it is a microphone with a sid.
pub proof fn law_every_microphone_is_found(
    participant_id: u128,
    before: Seq<Json>,
    track: Json,
    after: Seq<Json>,
)
    ensures
        microphones(participant_id, Seq::empty()) == Seq::<(u128, Seq<char>)>::empty(),
        microphones(participant_id, before.push(track) + after) == microphones(
            participant_id,
            before,
        ) + (if microphone(track) && track.member_text("sid"@) is Some {
            seq![(participant_id, track.member_text("sid"@)->0)]
        } else {
            Seq::empty()
        }) + microphones(participant_id, after),
    decreases after.len(),
{
    let all = before.push(track) + after;
    let own = if microphone(track) && track.member_text("sid"@) is Some {
        seq![(participant_id, track.member_text("sid"@)->0)]
    } else {
        Seq::empty()
    };
    if after.len() == 0 {
        assert(all =~= before.push(track));
        assert(all.drop_last() =~= before);
        assert(microphones(participant_id, all) =~= microphones(participant_id, before) + own
            + microphones(participant_id, after));
    } else {
        law_every_microphone_is_found(participant_id, before, track, after.drop_last());
        assert(all.drop_last() =~= before.push(track) + after.drop_last());
        assert(all.last() == after.last());
        assert(microphones(participant_id, all) =~= microphones(participant_id, before) + own
            + microphones(participant_id, after));
    }
}

/// The microphones of the room are those of all listed participants in turn; one whose identity
/// is not that of a participant has none.
pub proof fn law_every_participant_is_searched(
    before: Seq<Json>,
    participant: Json,
    after: Seq<Json>,
)
    ensures
        listed_microphones(Seq::empty()) == Seq::<(u128, Seq<char>)>::empty(),
        listed_microphones(before.push(participant) + after) == listed_microphones(before) + (
        match participant.member_text("identity"@) {
            Some(identity) => match identity_participant(identity) {
                Some(id) => microphones(
                    id,
                    match participant.member("tracks"@) {
                        Some(Json::List(tracks)) => tracks@,
                        _ => Seq::empty(),
                    },
                ),
                None => Seq::empty(),
            },
            None => Seq::empty(),
        }) + listed_microphones(after),
    decreases after.len(),
{
    let all = before.push(participant) + after;
    let own = match participant.member_text("identity"@) {
        Some(identity) => match identity_participant(identity) {
            Some(id) => microphones(
                id,
                match participant.member("tracks"@) {
                    Some(Json::List(tracks)) => tracks@,
                    _ => Seq::empty(),
                },
            ),
            None => Seq::empty(),
        },
        None => Seq::empty(),
    };
    if after.len() == 0 {
        assert(all =~= before.push(participant));
        assert(all.drop_last() =~= before);
        assert(listed_microphones(all) =~= listed_microphones(before) + own + listed_microphones(
            after,
        ));
    } else {
        law_every_participant_is_searched(before, participant, after.drop_last());
        assert(all.drop_last() =~= before.push(participant) + after.drop_last());
        assert(all.last() == after.last());
        assert(listed_microphones(all) =~= listed_microphones(before) + own + listed_microphones(
            after,
        ));
    }
}

/// An event is about the participant whose identity it gives, the connection that the metadata
/// of the participant name, and the track whose sid it gives, as far as it gives them.
pub proof fn law_what_an_event_is_about(event: Json)
    ensures
        ({
            let participant = event.member("participant"@);
            let source = source_of(event);
            &&& participant is None ==> source.participant is None && source.generation is None
            &&& participant is Some ==> {
                let identity = participant->0.member_text("identity"@);
                let metadata = participant->0.member_text("metadata"@);
                &&& identity is None ==> source.participant is None
                &&& identity is Some ==> source.participant == identity_participant(identity->0)
                &&& metadata is None ==> source.generation is None
                &&& metadata is Some ==> match json_lookup(
                    metadata->0,
                    "connection_generation"@,
                ) {
                    Found::Text(text) => source.generation == crate::ids::uuid_value(text),
                    _ => source.generation is None,
                }
            }
            &&& event_participant(event) == source.participant
            &&& event_track(event) == match event.member("track"@) {
                Some(track) => track.member_text("sid"@),
                None => None,
            }
        }),
{
}

/// A reply names its egress under `egress_id`, or where it has no such member under `egressId`;
/// what is no text names none.
pub proof fn law_first_name_is_preferred(value: Json, first: Seq<char>, second: Seq<char>)
    ensures
        value.member(first) is Some ==> either_text(value, first, second) == value.member_text(
            first,
        ),
        value.member(first) is None ==> either_text(value, first, second) == value.member_text(
            second,
        ),
{
}

} // verus!
