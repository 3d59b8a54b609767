//! What the server does when the media server reports an event.

use vstd::prelude::*;

use crate::domain::{RecordingSession, SegmentRow, SegmentRowModel};
use crate::events::{
    event_microphone, event_participant, event_source, event_track, microphone,
    microphone_track_of, participant_id_from_event, source_of, track_sid_from_event, EventSource,
};
use crate::json::{json_object, Json};
use crate::laws::law_segments_are_all_listed;
use crate::log::{
    law_event_takes_one_line, law_events_are_plain, livekit_event, livekit_members, one_line,
};
use crate::model::{segment_keys, StoreModel, CONNECT_GRACE_NS, HOST_GRACE_NS};
use crate::order::sorted_by;
use crate::reply::Refusal;
use crate::store::{schedulable, views, Store};
use crate::text::same_text;

verus! {

/// A text member; empty where there is none.
pub open spec fn text_or_empty(value: Json, name: Seq<char>) -> Seq<char> {
    match value.member_text(name) {
        Some(text) => text,
        None => Seq::empty(),
    }
}

/// The sid under which the media server knows the participant of an event.
pub open spec fn event_sid(event: Json) -> Option<Seq<char>> {
    match event.member("participant"@) {
        Some(participant) => participant.member_text("sid"@),
        None => None,
    }
}

/// How long a participant may stay away.
pub open spec fn grace(m: StoreModel, participant_id: u128) -> i128 {
    if m.room_host() == Some(participant_id) {
        HOST_GRACE_NS
    } else {
        CONNECT_GRACE_NS
    }
}

/// The store after the news of a participant's connection.
pub open spec fn noticed(m: StoreModel, event: Json, source: EventSource, now: i128) -> StoreModel {
    let name = text_or_empty(event, "event"@);
    match (source.participant, source.generation) {
        (Some(id), Some(generation)) => if name == "participant_joined"@ {
            m.online(id, generation, event_sid(event), now).0
        } else if name == "participant_left"@ {
            m.reconnecting(id, generation, (now + grace(m, id)) as i128, now).0
        } else {
            m
        },
        _ => m,
    }
}

/// The tracks of a participant's segments.
pub open spec fn tracks_of(rows: Seq<SegmentRowModel>, participant_id: u128) -> Seq<Seq<char>>
    decreases rows.len(),
{
    if rows.len() == 0 {
        Seq::empty()
    } else {
        let before = tracks_of(rows.drop_last(), participant_id);
        if rows.last().segment.participant_id == participant_id {
            before.push(rows.last().segment.livekit_track_sid)
        } else {
            before
        }
    }
}

/// The tracks of a participant's segments.
fn collect_tracks(rows: &Vec<SegmentRow>, participant_id: u128) -> (sids: Vec<String>)
    ensures
        views(sids@) == tracks_of(views(rows@), participant_id),
{
    let count: usize = rows.len();
    let mut sids: Vec<String> = Vec::new();
    let mut i: usize = 0;
    assert(views(sids@) =~= Seq::empty());
    while i < count
        invariant
            count == rows@.len(),
            i <= count,
            views(sids@) == tracks_of(views(rows@).take(i as int), participant_id),
        decreases count - i,
    {
        proof {
            let all = views(rows@);
            assert(all.take(i + 1).drop_last() =~= all.take(i as int));
            assert(all.take(i + 1).last() == rows@[i as int]@);
        }
        if rows[i].segment.participant_id == participant_id {
            let ghost before = sids@;
            let sid = rows[i].segment.livekit_track_sid.clone();
            sids.push(sid);
            assert(views(sids@) =~= views(before).push(sid@));
        }
        i += 1;
    }
    assert(views(rows@).take(count as int) =~= views(rows@));
    sids
}

/// What an event asks of the recording in progress.
#[derive(Debug)]
pub enum TrackWork {
    Nothing,
    /// An egress is to be started for a participant's track.
    Start(u128, String),
    /// The egresses of these tracks are to be stopped.
    Stop(Vec<String>),
}

/// What an event comes to.
#[derive(Debug)]
pub enum WebhookOutcome {
    Refused(Refusal),
    /// The event was handled before.
    Duplicate,
    /// There is nothing to record.
    NotRecording,
    /// The event is to be entered in the log of the recording, and its tracks need work.
    Recording(RecordingSession, TrackWork),
}

/// Whether this is the work that an event asks of a recording.
pub open spec fn is_work(
    m: StoreModel,
    event: Json,
    source: EventSource,
    recording_id: u128,
    work: TrackWork,
) -> bool {
    let name = text_or_empty(event, "event"@);
    if name == "track_published"@ {
        match event_microphone(m, event, source) {
            Some((id, sid)) => work is Start && work->Start_0 == id && work->Start_1@ == sid,
            None => work is Nothing,
        }
    } else if name == "track_unpublished"@ {
        match event_microphone(m, event, source) {
            Some((_, sid)) => work is Stop && views(work->Stop_0@) == seq![sid],
            None => work is Nothing,
        }
    } else if name == "participant_left"@ {
        match source.participant {
            Some(id) => work is Stop && exists|rows: Seq<SegmentRowModel>|
                #[trigger] sorted_by(
                    m.segments_of(recording_id),
                    segment_keys(m.segments_of(recording_id)),
                    rows,
                ) && views(work->Stop_0@) == tracks_of(rows, id),
            None => work is Nothing,
        }
    } else {
        work is Nothing
    }
}

/// The work that an event asks of a recording.
fn track_work(
    store: &Store,
    event: &Json,
    source: EventSource,
    name: &str,
    recording_id: u128,
) -> (work: TrackWork)
    requires
        store.wf(),
        name@ == text_or_empty(*event, "event"@),
    ensures
        is_work(store@, *event, source, recording_id, work),
{
    if same_text(name, "track_published") {
        match microphone_track_of(store, event, source) {
            Some((id, sid)) => TrackWork::Start(id, sid),
            None => TrackWork::Nothing,
        }
    } else if same_text(name, "track_unpublished") {
        match microphone_track_of(store, event, source) {
            Some((_, sid)) => {
                let ghost text = sid@;
                let mut sids: Vec<String> = Vec::new();
                sids.push(sid);
                assert(views(sids@) =~= seq![text]);
                TrackWork::Stop(sids)
            },
            None => TrackWork::Nothing,
        }
    } else if same_text(name, "participant_left") {
        match source.participant {
            Some(id) => {
                let rows = store.segments(recording_id);
                TrackWork::Stop(collect_tracks(&rows, id))
            },
            None => TrackWork::Nothing,
        }
    } else {
        TrackWork::Nothing
    }
}

/// Notes the news of a participant's connection.
fn notice(store: &mut Store, event: &Json, source: EventSource, name: &str, now: i128)
    requires
        old(store).wf(),
        schedulable(now),
        name@ == text_or_empty(*event, "event"@),
    ensures
        final(store).wf(),
        final(store)@ == noticed(old(store)@, *event, source, now),
{
    let (id, generation) = match (source.participant, source.generation) {
        (Some(id), Some(generation)) => (id, generation),
        _ => {
            return ;
        },
    };
    if same_text(name, "participant_joined") {
        let sid = match event.get("participant") {
            Some(participant) => participant.get_text("sid"),
            None => None,
        };
        let _ = store.mark_connection_online(id, generation, sid, now);
    } else if same_text(name, "participant_left") {
        let hosting = match store.room_host() {
            Some(host) => host == id,
            None => false,
        };
        let grace: i128 = if hosting {
            HOST_GRACE_NS
        } else {
            CONNECT_GRACE_NS
        };
        let _ = store.mark_connection_reconnecting(id, generation, now + grace, now);
    }
}

/// Whether this is what an event comes to, and what the store is after it.
pub open spec fn handled(
    m: StoreModel,
    event: Json,
    source: EventSource,
    now: i128,
    after: StoreModel,
    outcome: WebhookOutcome,
) -> bool {
    let name = text_or_empty(event, "event"@);
    let id = text_or_empty(event, "id"@);
    if name.len() == 0 || id.len() == 0 {
        &&& outcome is Refused
        &&& outcome->Refused_0 == Refusal::InvalidWebhookEvent
        &&& after == m
    } else if m.webhooks.contains(id) {
        outcome is Duplicate && after == m
    } else {
        let seen = StoreModel { webhooks: m.webhooks.insert(id), ..m };
        &&& after == noticed(seen, event, source, now)
        &&& match after.active_recording() {
            None => outcome is NotRecording,
            Some(r) => outcome is Recording && outcome->Recording_0@ == r && is_work(
                after,
                event,
                source,
                r.id,
                outcome->Recording_1,
            ),
        }
    }
}

/// Handles an event from a known source. Each event counts once.
pub fn handle_event(store: &mut Store, event: &Json, source: EventSource, now: i128) -> (outcome:
    WebhookOutcome)
    requires
        old(store).wf(),
        schedulable(now),
    ensures
        final(store).wf(),
        handled(old(store)@, *event, source, now, final(store)@, outcome),
{
    let name = match event.get_text("event") {
        Some(name) => name,
        None => {
            return WebhookOutcome::Refused(Refusal::InvalidWebhookEvent);
        },
    };
    let id = match event.get_text("id") {
        Some(id) => id,
        None => {
            return WebhookOutcome::Refused(Refusal::InvalidWebhookEvent);
        },
    };
    if name.unicode_len() == 0 || id.unicode_len() == 0 {
        return WebhookOutcome::Refused(Refusal::InvalidWebhookEvent);
    }
    if !store.record_webhook(id) {
        proof {
            assert(old(store)@.webhooks.insert(id@) =~= old(store)@.webhooks);
            assert(store@ =~= old(store)@);
        }
        return WebhookOutcome::Duplicate;
    }
    notice(store, event, source, name, now);
    match store.active_recording() {
        Some(recording) => {
            let work = track_work(store, event, source, name, recording.id);
            WebhookOutcome::Recording(recording, work)
        },
        None => WebhookOutcome::NotRecording,
    }
}

/// Handles an event that comes from the media server.
pub fn webhook(store: &mut Store, event: &Json, now: i128) -> (outcome: WebhookOutcome)
    requires
        old(store).wf(),
        schedulable(now),
    ensures
        final(store).wf(),
        handled(old(store)@, *event, source_of(*event), now, final(store)@, outcome),
{
    let source = event_source(event);
    handle_event(store, event, source, now)
}

/// Late news of a connection that is no longer current change nothing.
pub proof fn law_late_news_change_nothing(
    m: StoreModel,
    event: Json,
    id: u128,
    generation: u128,
    now: i128,
)
    requires
        !m.current(id, generation),
    ensures
        noticed(
            m,
            event,
            (EventSource { participant: Some(id), generation: Some(generation) }),
            now,
        ) == m,
{
}

/// A host who drops out is waited for during five minutes, anyone else during one.
pub proof fn law_host_is_waited_for_longer(
    m: StoreModel,
    event: Json,
    id: u128,
    generation: u128,
    now: i128,
    later: i128,
)
    requires
        schedulable(now),
        text_or_empty(event, "event"@) == "participant_left"@,
        m.current(id, generation),
        !(m.connections.map[id].state is Left),
    ensures
        noticed(
            m,
            event,
            (EventSource { participant: Some(id), generation: Some(generation) }),
            now,
        ).expire(later).holds_place(id) <==> later - now < if m.room_host() == Some(id) {
            300_000_000_000int
        } else {
            60_000_000_000int
        },
{
    reveal_strlit("participant_left");
    reveal_strlit("participant_joined");
    assert("participant_left"@.len() != "participant_joined"@.len());
}

/// The line of a recording's log that tells of an event.
pub fn logged_event(event: &Json, at: &str) -> (line: String)
    ensures
        line@ == json_object(
            livekit_members(
                text_or_empty(*event, "event"@),
                text_or_empty(*event, "id"@),
                event_participant(*event),
                event_track(*event),
                at@,
            ),
        ),
        one_line(line@),
{
    let name = match event.get_text("event") {
        Some(name) => name,
        None => "",
    };
    let id = match event.get_text("id") {
        Some(id) => id,
        None => "",
    };
    proof {
        reveal_strlit("");
        assert(""@ =~= Seq::empty());
        let members = livekit_members(
            text_or_empty(*event, "event"@),
            text_or_empty(*event, "id"@),
            event_participant(*event),
            event_track(*event),
            at@,
        );
        law_events_are_plain(
            text_or_empty(*event, "event"@),
            text_or_empty(*event, "id"@),
            0,
            event_participant(*event),
            ""@,
            event_track(*event),
            0,
            at@,
        );
        law_event_takes_one_line(members);
    }
    livekit_event(name, id, participant_id_from_event(event), track_sid_from_event(event), at)
}

/// No event is forgotten: what was known before an event came is known after it.
pub proof fn law_events_are_not_forgotten(
    m: StoreModel,
    event: Json,
    source: EventSource,
    now: i128,
    after: StoreModel,
    outcome: WebhookOutcome,
)
    requires
        handled(m, event, source, now, after, outcome),
    ensures
        m.webhooks.subset_of(after.webhooks),
{
}

/// An event that was handled is known from then on: whatever comes later under its id is a
/// duplicate that changes nothing, as long as no event is forgotten in between.
pub proof fn law_event_counts_once(
    m: StoreModel,
    event: Json,
    source: EventSource,
    now: i128,
    after: StoreModel,
    outcome: WebhookOutcome,
    between: StoreModel,
    other: Json,
    other_source: EventSource,
    later: i128,
    last: StoreModel,
    again: WebhookOutcome,
)
    requires
        handled(m, event, source, now, after, outcome),
        !(outcome is Refused),
        after.webhooks.subset_of(between.webhooks),
        text_or_empty(other, "id"@) == text_or_empty(event, "id"@),
        text_or_empty(other, "event"@).len() > 0,
        handled(between, other, other_source, later, last, again),
    ensures
        again is Duplicate,
        last == between,
{
    let id = text_or_empty(event, "id"@);
    assert(after.webhooks.contains(id));
}

proof fn lemma_tracks_of(rows: Seq<SegmentRowModel>, participant_id: u128)
    ensures
        forall|i: int|
            0 <= i < rows.len() && (#[trigger] rows[i]).segment.participant_id == participant_id
                ==> tracks_of(rows, participant_id).contains(rows[i].segment.livekit_track_sid),
        forall|sid: Seq<char>| #[trigger]
            tracks_of(rows, participant_id).contains(sid) ==> exists|i: int|
                0 <= i < rows.len() && (#[trigger] rows[i]).segment.participant_id
                    == participant_id && rows[i].segment.livekit_track_sid == sid,
        (forall|i: int, j: int|
            0 <= i < j < rows.len() ==> (#[trigger] rows[i]).segment.livekit_track_sid != (
            #[trigger] rows[j]).segment.livekit_track_sid) ==> tracks_of(
            rows,
            participant_id,
        ).no_duplicates(),
    decreases rows.len(),
{
    if rows.len() > 0 {
        let shorter = rows.drop_last();
        let before = tracks_of(shorter, participant_id);
        let sids = tracks_of(rows, participant_id);
        lemma_tracks_of(shorter, participant_id);
        assert(rows[rows.len() - 1] == rows.last());
        assert forall|i: int|
            0 <= i < rows.len() && (#[trigger] rows[i]).segment.participant_id
                == participant_id implies sids.contains(rows[i].segment.livekit_track_sid) by {
            if i < shorter.len() {
                assert(shorter[i] == rows[i]);
                let j = choose|j: int|
                    0 <= j < before.len() && before[j] == rows[i].segment.livekit_track_sid;
                assert(sids[j] == rows[i].segment.livekit_track_sid);
            } else {
                assert(sids[sids.len() - 1] == rows[i].segment.livekit_track_sid);
            }
        }
        assert forall|sid: Seq<char>| #[trigger] sids.contains(sid) implies exists|i: int|
            0 <= i < rows.len() && (#[trigger] rows[i]).segment.participant_id == participant_id
                && rows[i].segment.livekit_track_sid == sid by {
            let j = choose|j: int| 0 <= j < sids.len() && sids[j] == sid;
            if j < before.len() {
                assert(before[j] == sid);
                assert(before.contains(sid));
                let i = choose|i: int|
                    0 <= i < shorter.len() && (#[trigger] shorter[i]).segment.participant_id
                        == participant_id && shorter[i].segment.livekit_track_sid == sid;
                assert(rows[i] == shorter[i]);
            } else {
                assert(rows[rows.len() - 1].segment.livekit_track_sid == sid);
            }
        }
        if forall|i: int, j: int|
            0 <= i < j < rows.len() ==> (#[trigger] rows[i]).segment.livekit_track_sid != (
            #[trigger] rows[j]).segment.livekit_track_sid {
            assert forall|i: int, j: int| 0 <= i < j < shorter.len() implies (
            #[trigger] shorter[i]).segment.livekit_track_sid != (
            #[trigger] shorter[j]).segment.livekit_track_sid by {
                assert(shorter[i] == rows[i] && shorter[j] == rows[j]);
            }
            assert(before.no_duplicates());
            if rows.last().segment.participant_id == participant_id {
                assert forall|j: int| 0 <= j < before.len() implies #[trigger] before[j]
                    != rows.last().segment.livekit_track_sid by {
                    assert(before.contains(before[j]));
                    let i = choose|i: int|
                        0 <= i < shorter.len() && (#[trigger] shorter[i]).segment.participant_id
                            == participant_id && shorter[i].segment.livekit_track_sid == before[j];
                    assert(rows[i] == shorter[i]);
                    assert(rows[i].segment.livekit_track_sid != rows[rows.len()
                        - 1].segment.livekit_track_sid);
                }
            }
        }
    }
}

/// When a participant has dropped out, the tracks to be stopped are those of every segment
/// that the recording in progress has of that participant, with an egress or without one and
/// whatever has become of it; each once, and no other track.
pub proof fn law_tracks_of_whoever_left_are_stopped(
    m: StoreModel,
    event: Json,
    source: EventSource,
    now: i128,
    after: StoreModel,
    outcome: WebhookOutcome,
    id: u128,
)
    requires
        m.wf(),
        handled(m, event, source, now, after, outcome),
        outcome is Recording,
        event.member_text("event"@) == Some("participant_left"@),
        source.participant == Some(id),
    ensures
        outcome->Recording_1 is Stop,
        ({
            let recording_id = outcome->Recording_0.id;
            let sids = views(outcome->Recording_1->Stop_0@);
            &&& forall|k: u128|
                m.segments.has(k) && (#[trigger] m.segments.map[k]).segment.recording_id
                    == recording_id && m.segments.map[k].segment.participant_id == id
                    ==> sids.contains(m.segments.map[k].segment.livekit_track_sid)
            &&& forall|sid: Seq<char>| #[trigger]
                sids.contains(sid) ==> exists|k: u128|
                    m.segments.has(k) && (#[trigger] m.segments.map[k]).segment.recording_id
                        == recording_id && m.segments.map[k].segment.participant_id == id
                        && m.segments.map[k].segment.livekit_track_sid == sid
            &&& sids.no_duplicates()
        }),
{
    lemma_event_names_differ();
    let recording_id = outcome->Recording_0.id;
    assert(outcome->Recording_0@.id == recording_id);
    assert(after.segments == m.segments);
    let list = m.segments_of(recording_id);
    assert(after.segments_of(recording_id) == list);
    let rows = choose|rows: Seq<SegmentRowModel>|
        #[trigger] sorted_by(list, segment_keys(list), rows) && views(
            outcome->Recording_1->Stop_0@,
        ) == tracks_of(rows, id);
    let sids = views(outcome->Recording_1->Stop_0@);
    law_segments_are_all_listed(m, recording_id, rows);
    lemma_tracks_of(rows, id);
    assert forall|k: u128|
        m.segments.has(k) && (#[trigger] m.segments.map[k]).segment.recording_id == recording_id
            && m.segments.map[k].segment.participant_id == id implies sids.contains(
        m.segments.map[k].segment.livekit_track_sid,
    ) by {
        let i = choose|i: int| 0 <= i < rows.len() && rows[i] == m.segments.map[k];
        assert(rows[i].segment.participant_id == id);
    }
    assert forall|sid: Seq<char>| #[trigger] sids.contains(sid) implies exists|k: u128|
        m.segments.has(k) && (#[trigger] m.segments.map[k]).segment.recording_id == recording_id
            && m.segments.map[k].segment.participant_id == id
            && m.segments.map[k].segment.livekit_track_sid == sid by {
        let i = choose|i: int|
            0 <= i < rows.len() && (#[trigger] rows[i]).segment.participant_id == id
                && rows[i].segment.livekit_track_sid == sid;
        let k = rows[i].segment.id;
        assert(m.segments.has(k) && m.segments.map[k] == rows[i]);
    }
    assert forall|i: int, j: int| 0 <= i < j < rows.len() implies (
    #[trigger] rows[i]).segment.livekit_track_sid != (
    #[trigger] rows[j]).segment.livekit_track_sid by {
        let a = rows[i].segment.id;
        let b = rows[j].segment.id;
        assert(m.segments.map[a] == rows[i] && m.segments.map[b] == rows[j]);
    }
}

proof fn lemma_event_names_differ()
    ensures
        "participant_left"@ != "participant_joined"@,
        "participant_left"@ != "track_published"@,
        "participant_left"@ != "track_unpublished"@,
        "participant_joined"@ != "track_published"@,
        "participant_joined"@ != "track_unpublished"@,
        "track_published"@ != "track_unpublished"@,
{
    reveal_strlit("participant_left");
    reveal_strlit("participant_joined");
    reveal_strlit("track_published");
    reveal_strlit("track_unpublished");
    assert("participant_left"@.len() == 16);
    assert("participant_joined"@.len() == 18);
    assert("track_published"@.len() == 15);
    assert("track_unpublished"@.len() == 17);
}

/// An event without a name or without an id is refused, one whose id is known is passed over,
/// and neither changes anything. Every other one is known from then on.
pub proof fn law_which_events_count(
    m: StoreModel,
    event: Json,
    source: EventSource,
    now: i128,
    after: StoreModel,
    outcome: WebhookOutcome,
)
    requires
        handled(m, event, source, now, after, outcome),
    ensures
        ({
            let name = event.member_text("event"@);
            let id = event.member_text("id"@);
            let complete = name is Some && name->0.len() > 0 && id is Some && id->0.len() > 0;
            &&& !complete <==> outcome is Refused
            &&& outcome is Refused ==> outcome->Refused_0 is InvalidWebhookEvent && after == m
            &&& complete && m.webhooks.contains(id->0) <==> outcome is Duplicate
            &&& outcome is Duplicate ==> after == m
            &&& outcome is NotRecording || outcome is Recording ==> after.webhooks
                == m.webhooks.insert(id->0)
        }),
{
}

/// What the news of a participant do to the connection they are about: whoever has joined is
/// online, without a deadline, under the sid of the event; whoever has dropped out, and did
/// not leave, is waited for until 300 seconds from now as host and 60 seconds as anyone else.
/// News of no other kind, of an unknown participant or of another connection than the present
/// one change no connection, and none change anything else.
pub proof fn law_news_change_one_connection(
    m: StoreModel,
    event: Json,
    source: EventSource,
    now: i128,
    after: StoreModel,
    outcome: WebhookOutcome,
    id: u128,
)
    requires
        schedulable(now),
        handled(m, event, source, now, after, outcome),
        outcome is NotRecording || outcome is Recording,
    ensures
        after.participants == m.participants,
        after.credentials == m.credentials,
        after.sessions == m.sessions,
        after.recordings == m.recordings,
        after.recording_rooms == m.recording_rooms,
        after.segments == m.segments,
        after.empty_since == m.empty_since,
        after.host_credential == m.host_credential,
        after.connections.has(id) == m.connections.has(id),
        ({
            let name = event.member_text("event"@);
            let was = m.connections.map[id];
            let is = after.connections.map[id];
            let meant = source.participant == Some(id) && m.connections.has(id)
                && source.generation == Some(was.generation);
            let wait = match m.room_host() {
                Some(host) => if host == id {
                    300_000_000_000int
                } else {
                    60_000_000_000
                },
                None => 60_000_000_000,
            };
            if meant && name == Some("participant_joined"@) {
                &&& is.state is Online
                &&& is.reconnect_deadline is None
                &&& is.generation == was.generation
                &&& is.changed_at == now
                &&& is.livekit_participant_sid == match event.member("participant"@) {
                    Some(participant) => participant.member_text("sid"@),
                    None => None,
                }
            } else if meant && name == Some("participant_left"@) && !(was.state is Left) {
                &&& is.state is Reconnecting
                &&& is.reconnect_deadline is Some
                &&& is.reconnect_deadline->0 == now + wait
                &&& is.generation == was.generation
                &&& is.changed_at == now
                &&& is.livekit_participant_sid == was.livekit_participant_sid
            } else {
                after.connections.get(id) == m.connections.get(id)
            }
        }),
{
    lemma_event_names_differ();
}

/// What an event asks of the recording in progress: a microphone that was published is to be
/// recorded and one that was withdrawn is to be stopped, under the participant and the track
/// that the event names and only where it is news of their present connection; whoever dropped
/// out is stopped. Nothing else asks for anything.
pub proof fn law_which_events_ask_for_work(
    m: StoreModel,
    event: Json,
    source: EventSource,
    now: i128,
    after: StoreModel,
    outcome: WebhookOutcome,
)
    requires
        handled(m, event, source, now, after, outcome),
        outcome is Recording,
    ensures
        ({
            let name = event.member_text("event"@);
            let work = outcome->Recording_1;
            let track = event.member("track"@);
            let meant = source.participant is Some && source.generation is Some
                && m.connections.has(source.participant->0)
                && m.connections.map[source.participant->0].generation == source.generation->0;
            let heard = meant && track is Some && microphone(track->0) && track->0.member_text(
                "sid"@,
            ) is Some;
            &&& work is Start <==> name == Some("track_published"@) && heard
            &&& work is Start ==> work->Start_0 == source.participant->0 && Some(work->Start_1@)
                == track->0.member_text("sid"@)
            &&& work is Stop <==> name == Some("track_unpublished"@) && heard || name == Some(
                "participant_left"@,
            ) && source.participant is Some
            &&& name == Some("track_unpublished"@) && heard ==> views(work->Stop_0@) == seq![
                track->0.member_text("sid"@)->0,
            ]
        }),
{
    lemma_event_names_differ();
}

} // verus!
