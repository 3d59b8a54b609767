//! What is written down of a recording in its directory: the session, the manifest and what
//! is known of a segment. Each is one JSON object, its members in the order of their names,
//! each on a line of its own.

use vstd::prelude::*;

use crate::auth::ROOM;
use crate::clock::{in_calendar, shown_time, utc_text};
use crate::domain::{
    Participant, ParticipantModel, RecordingModel, RecordingSession, RoomSession,
};
use crate::ids::{hyphenated_text, uuid_text};
use crate::json::{
    indented_items, indented_list, indented_object, json_string, list_text, quote, texts_of, IndentedWriter, Member,
};
use crate::pcm::SegmentEnd;
use crate::recording::{complete_recording, completed_at, FinalPlan, TrackPlan, TrackPlanModel};
use crate::rows::{role_name, role_text, status_name, status_text};
use crate::store::{views, Store};
use crate::text::{decimal, decimal_text};
use crate::SAMPLE_RATE;

verus! {

/// A number in decimal, with its sign where it is negative.
pub open spec fn signed_text(n: int) -> Seq<char> {
    if n < 0 {
        "-"@ + decimal_text((-n) as nat)
    } else {
        decimal_text(n as nat)
    }
}

/// A number in decimal, with its sign where it is negative.
fn signed_decimal(n: i64) -> (text: String)
    ensures
        text@ == signed_text(n as int),
{
    if n < 0 {
        let mut text = "-".to_owned();
        let size: u64 = (-(n as i128)) as u64;
        let digits = decimal(size);
        text.append(digits.as_str());
        text
    } else {
        decimal(n as u64)
    }
}

/// Why a track file could not be written; `None` where it was.
pub open spec fn problem(written: Result<(), String>) -> Option<Seq<char>> {
    match written {
        Ok(_) => None,
        Err(reason) => Some(reason@),
    }
}

/// Why track files could not be written.
pub open spec fn problems(written: Seq<Result<(), String>>) -> Seq<Option<Seq<char>>> {
    written.map_values(|w: Result<(), String>| problem(w))
}

/// The warnings about a track: one where its file could not be written, else none.
pub open spec fn warnings_text(problem: Option<Seq<char>>) -> Seq<char> {
    match problem {
        Some(reason) => indented_list(seq![json_string(reason)], 3),
        None => indented_list(Seq::empty(), 3),
    }
}

/// The warnings about a track.
fn warnings(written: &Result<(), String>) -> (text: String)
    ensures
        text@ == warnings_text(problem(*written)),
{
    let mut items: Vec<String> = Vec::new();
    match written {
        Ok(_) => {
            assert(texts_of(items@) =~= Seq::empty());
        },
        Err(reason) => {
            let quoted = quote(reason.as_str());
            items.push(quoted);
            assert(texts_of(items@) =~= seq![json_string(reason@)]);
        },
    }
    list_text(&items, 3)
}

// The manifest.

/// What the manifest says of a track.
pub open spec fn track_members(track: TrackPlanModel, problem: Option<Seq<char>>) -> Seq<Member> {
    seq![
        ("final_file"@, json_string(track.final_file)),
        ("nickname"@, json_string(track.nickname)),
        ("participant_id"@, json_string(hyphenated_text(track.participant_id))),
        ("segments"@, decimal_text(track.segments.len())),
        ("warnings"@, warnings_text(problem)),
    ]
}

/// What the manifest says of a track.
fn track_text(track: &TrackPlan, written: &Result<(), String>) -> (text: String)
    ensures
        text@ == indented_object(track_members(track@, problem(*written)), 2),
{
    let id = uuid_text(track.participant_id);
    let list = warnings(written);
    let mut writer = IndentedWriter::new(2);
    writer.text("final_file", track.final_file.as_str());
    writer.text("nickname", track.nickname.as_str());
    writer.text("participant_id", id.as_str());
    writer.number("segments", track.segments.len() as u64);
    writer.raw("warnings", list.as_str());
    assert(writer@ =~= track_members(track@, problem(*written)));
    writer.finish()
}

/// What the manifest says of all tracks.
pub open spec fn track_texts(
    tracks: Seq<TrackPlanModel>,
    problems: Seq<Option<Seq<char>>>,
) -> Seq<Seq<char>> {
    Seq::new(tracks.len(), |i: int| indented_object(track_members(tracks[i], problems[i]), 2))
}

/// The manifest of a finished recording. A track whose file could not be written has a
/// warning; the others have none.
pub open spec fn manifest_text(
    recording_id: u128,
    plan: FinalPlan,
    written: Seq<Result<(), String>>,
) -> Seq<char> {
    indented_object(
        seq![
            (
                "participants"@,
                indented_list(track_texts(views(plan.tracks@), problems(written)), 1),
            ),
            ("recording_id"@, json_string(hyphenated_text(recording_id))),
            ("timeline_samples"@, decimal_text(plan.timeline_samples as nat)),
        ],
        0,
    )
}

/// The manifest of a finished recording.
fn manifest(recording_id: u128, plan: &FinalPlan, written: &Vec<Result<(), String>>) -> (text:
    String)
    requires
        written@.len() == plan.tracks@.len(),
    ensures
        text@ == manifest_text(recording_id, *plan, written@),
{
    let ghost all = track_texts(views(plan.tracks@), problems(written@));
    let count: usize = plan.tracks.len();
    let mut entries: Vec<String> = Vec::new();
    let mut i: usize = 0;
    assert(texts_of(entries@) =~= all.take(0));
    while i < count
        invariant
            all == track_texts(views(plan.tracks@), problems(written@)),
            count == plan.tracks@.len(),
            count == written@.len(),
            i <= count,
            texts_of(entries@) == all.take(i as int),
        decreases count - i,
    {
        let entry = track_text(&plan.tracks[i], &written[i]);
        let ghost before = entries@;
        entries.push(entry);
        proof {
            assert(views(plan.tracks@)[i as int] == plan.tracks@[i as int]@);
            assert(all[i as int] == entry@);
            assert(texts_of(entries@) =~= texts_of(before).push(entry@));
            assert(all.take(i + 1) =~= all.take(i as int).push(all[i as int]));
        }
        i += 1;
    }
    assert(all.take(count as int) =~= all);
    let list = list_text(&entries, 1);
    let id = uuid_text(recording_id);
    let mut writer = IndentedWriter::new(0);
    writer.raw("participants", list.as_str());
    writer.text("recording_id", id.as_str());
    writer.number("timeline_samples", plan.timeline_samples);
    assert(writer@ =~= seq![
        ("participants"@, indented_list(all, 1)),
        ("recording_id"@, json_string(hyphenated_text(recording_id))),
        ("timeline_samples"@, decimal_text(plan.timeline_samples as nat)),
    ]);
    writer.finish()
}

/// Notes that a recording is complete and gives its manifest. A track that could not be
/// written leaves a warning there, and the recording is completed all the same.
pub fn finish_recording(
    store: &mut Store,
    recording: &mut RecordingSession,
    plan: &FinalPlan,
    written: &Vec<Result<(), String>>,
    now: i128,
) -> (text: String)
    requires
        old(store).wf(),
        written@.len() == plan.tracks@.len(),
        old(recording).version < i64::MAX,
    ensures
        final(store).wf(),
        final(recording)@ == completed_at(old(recording)@, now),
        final(store)@ == old(store)@.with_progress(final(recording)@),
        text@ == manifest_text(old(recording).id, *plan, written@),
{
    let text = manifest(recording.id, plan, written);
    complete_recording(store, recording, now);
    text
}

/// One track that fails does not touch the others: what the manifest says of a track
/// depends on that track alone, and it has a warning exactly where its own file could not
/// be written.
pub proof fn law_one_failure_is_one_warning(
    tracks: Seq<TrackPlanModel>,
    first: Seq<Option<Seq<char>>>,
    second: Seq<Option<Seq<char>>>,
    i: int,
)
    requires
        0 <= i < tracks.len(),
        first.len() == tracks.len(),
        second.len() == tracks.len(),
        first[i] == second[i],
    ensures
        track_texts(tracks, first).len() == tracks.len(),
        track_texts(tracks, first)[i] == track_texts(tracks, second)[i],
        first[i] is None <==> warnings_text(first[i]) == "[]"@,
{
    reveal_strlit("[]");
    if let Some(reason) = first[i] {
        let items = seq![json_string(reason)];
        assert(items.last() == json_string(reason));
        assert(json_string(reason).len() >= 2);
        assert(indented_items(items, 3).len() > 2);
        assert(indented_list(items, 3).len() > 2);
        assert("[]"@.len() == 2);
    }
}

// The session.

/// The place of a participant's track among some tracks.
pub open spec fn track_place(tracks: Seq<TrackPlanModel>, participant_id: u128) -> Option<int>
    decreases tracks.len(),
{
    if tracks.len() == 0 {
        None
    } else {
        match track_place(tracks.drop_last(), participant_id) {
            Some(place) => Some(place),
            None => if tracks.last().participant_id == participant_id {
                Some(tracks.len() - 1)
            } else {
                None
            },
        }
    }
}

/// The place of a participant's track in a plan.
fn place_in(plan: &FinalPlan, participant_id: u128) -> (place: Option<usize>)
    ensures
        match place {
            Some(i) => i < plan.tracks@.len() && track_place(
                views(plan.tracks@),
                participant_id,
            ) == Some(i as int),
            None => track_place(views(plan.tracks@), participant_id) is None,
        },
{
    let ghost all = views(plan.tracks@);
    let count: usize = plan.tracks.len();
    let mut place: Option<usize> = None;
    let mut i: usize = 0;
    while i < count
        invariant
            all == views(plan.tracks@),
            count == plan.tracks@.len(),
            i <= count,
            match place {
                Some(k) => k < i && track_place(all.take(i as int), participant_id) == Some(
                    k as int,
                ),
                None => track_place(all.take(i as int), participant_id) is None,
            },
        decreases count - i,
    {
        proof {
            assert(all.take(i + 1).drop_last() =~= all.take(i as int));
            assert(all.take(i + 1).last() == plan.tracks@[i as int]@);
        }
        if place.is_none() && plan.tracks[i].participant_id == participant_id {
            place = Some(i);
        }
        i += 1;
    }
    assert(all.take(count as int) =~= all);
    place
}

/// What has become of the tracks of a recording.
pub struct Outcome {
    pub timeline_samples: u64,
    pub tracks: Seq<TrackPlanModel>,
    pub problems: Seq<Option<Seq<char>>>,
}

/// What has become of the tracks of a recording; `None` while it goes on.
pub open spec fn outcome_of(finished: Option<(&FinalPlan, &Vec<Result<(), String>>)>) -> Option<
    Outcome,
> {
    match finished {
        Some((plan, written)) => Some(
            Outcome {
                timeline_samples: plan.timeline_samples,
                tracks: views(plan.tracks@),
                problems: problems(written@),
            },
        ),
        None => None,
    }
}

/// The track of a participant, and why its file could not be written.
pub open spec fn track_outcome(outcome: Option<Outcome>, participant_id: u128) -> Option<
    (TrackPlanModel, Option<Seq<char>>),
> {
    match outcome {
        Some(o) => match track_place(o.tracks, participant_id) {
            Some(place) => Some((o.tracks[place], o.problems[place])),
            None => None,
        },
        None => None,
    }
}

/// What the session says of a participant: who it is and, once the recording is finished,
/// the file, the number of segments and the warnings of the track.
pub open spec fn participant_members(
    p: ParticipantModel,
    track: Option<(TrackPlanModel, Option<Seq<char>>)>,
) -> Seq<Member> {
    seq![
        ("created_at"@, json_string(shown_time(p.created_at as int))),
        (
            "final_file"@,
            match track {
                Some(t) => json_string(t.0.final_file),
                None => "null"@,
            },
        ),
        ("id"@, json_string(hyphenated_text(p.id))),
        ("last_seen_at"@, json_string(shown_time(p.last_seen_at as int))),
        ("livekit_identity"@, json_string(p.livekit_identity)),
        ("nickname"@, json_string(p.nickname)),
        ("participant_id"@, json_string(hyphenated_text(p.id))),
        ("role"@, json_string(role_text(p.role))),
        (
            "segments"@,
            decimal_text(
                match track {
                    Some(t) => t.0.segments.len(),
                    None => 0,
                },
            ),
        ),
        (
            "warnings"@,
            warnings_text(
                match track {
                    Some(t) => t.1,
                    None => None,
                },
            ),
        ),
    ]
}

/// Whether the instants of a participant lie in the calendar.
pub open spec fn showable(p: ParticipantModel) -> bool {
    in_calendar(p.created_at as int) && in_calendar(p.last_seen_at as int)
}

/// What the session says of a participant; `None` where an instant lies outside the
/// calendar.
fn participant_text(
    participant: &Participant,
    finished: Option<(&FinalPlan, &Vec<Result<(), String>>)>,
) -> (text: Option<String>)
    requires
        finished matches Some((plan, written)) ==> written@.len() == plan.tracks@.len(),
    ensures
        text is Some <==> showable(participant@),
        text is Some ==> text->0@ == indented_object(
            participant_members(
                participant@,
                track_outcome(outcome_of(finished), participant.id),
            ),
            2,
        ),
{
    let (created, seen) = match (
        utc_text(participant.created_at),
        utc_text(participant.last_seen_at),
    ) {
        (Some(created), Some(seen)) => (created, seen),
        _ => {
            return None;
        },
    };
    let mut final_file = "null".to_owned();
    let mut segments: u64 = 0;
    let written_well: Result<(), String> = Ok(());
    let mut list = warnings(&written_well);
    let ghost track = track_outcome(outcome_of(finished), participant.id);
    if let Some((plan, written)) = finished {
        if let Some(place) = place_in(plan, participant.id) {
            final_file = quote(plan.tracks[place].final_file.as_str());
            segments = plan.tracks[place].segments.len() as u64;
            list = warnings(&written[place]);
            proof {
                assert(views(plan.tracks@)[place as int] == plan.tracks@[place as int]@);
                assert(track == Some(
                    (plan.tracks@[place as int]@, problem(written@[place as int])),
                ));
            }
        }
    }
    let id = uuid_text(participant.id);
    let mut writer = IndentedWriter::new(2);
    writer.text("created_at", created.as_str());
    writer.raw("final_file", final_file.as_str());
    writer.text("id", id.as_str());
    writer.text("last_seen_at", seen.as_str());
    writer.text("livekit_identity", participant.livekit_identity.as_str());
    writer.text("nickname", participant.nickname.as_str());
    writer.text("participant_id", id.as_str());
    writer.text("role", role_name(&participant.role));
    writer.number("segments", segments);
    writer.raw("warnings", list.as_str());
    assert(writer@ =~= participant_members(participant@, track));
    Some(writer.finish())
}

/// What the session says of everyone.
pub open spec fn participant_texts(
    participants: Seq<ParticipantModel>,
    outcome: Option<Outcome>,
) -> Seq<Seq<char>> {
    Seq::new(
        participants.len(),
        |i: int|
            indented_object(
                participant_members(
                    participants[i],
                    track_outcome(outcome, participants[i].id),
                ),
                2,
            ),
    )
}

/// What the session says of a recording.
pub open spec fn session_members(
    r: RecordingModel,
    session: RoomSession,
    participants: Seq<ParticipantModel>,
    outcome: Option<Outcome>,
) -> Seq<Member> {
    seq![
        ("channels"@, decimal_text(1)),
        ("participants"@, indented_list(participant_texts(participants, outcome), 1)),
        ("recording_id"@, json_string(hyphenated_text(r.id))),
        ("room_generation"@, signed_text(session.generation as int)),
        ("room_name"@, json_string("main"@)),
        ("room_session_id"@, json_string(hyphenated_text(session.id))),
        ("sample_format"@, json_string("s16le"@)),
        ("sample_rate"@, decimal_text(SAMPLE_RATE as nat)),
        ("started_at"@, json_string(shown_time(r.started_at_utc as int))),
        ("status"@, json_string(status_text(r.status))),
        (
            "stopped_at"@,
            match r.stopped_at_utc {
                Some(at) => json_string(shown_time(at as int)),
                None => "null"@,
            },
        ),
        (
            "timeline_samples"@,
            match outcome {
                Some(o) => decimal_text(o.timeline_samples as nat),
                None => "null"@,
            },
        ),
    ]
}

/// Whether all instants of a session lie in the calendar.
pub open spec fn session_showable(r: RecordingModel, participants: Seq<ParticipantModel>) -> bool {
    &&& in_calendar(r.started_at_utc as int)
    &&& r.stopped_at_utc matches Some(at) ==> in_calendar(at as int)
    &&& forall|i: int| 0 <= i < participants.len() ==> showable(#[trigger] participants[i])
}

/// The session of a recording: the room session it belongs to, how far it has come, and
/// everyone who is known, with the tracks once it is finished. `None` where an instant
/// lies outside the calendar.
pub fn session_text(
    recording: &RecordingSession,
    session: &RoomSession,
    participants: &Vec<Participant>,
    finished: Option<(&FinalPlan, &Vec<Result<(), String>>)>,
) -> (text: Option<String>)
    requires
        finished matches Some((plan, written)) ==> written@.len() == plan.tracks@.len(),
    ensures
        text is Some <==> session_showable(recording@, views(participants@)),
        text is Some ==> text->0@ == indented_object(
            session_members(
                recording@,
                *session,
                views(participants@),
                outcome_of(finished),
            ),
            0,
        ),
{
    let ghost everyone = views(participants@);
    let ghost outcome = outcome_of(finished);
    let ghost all = participant_texts(everyone, outcome);
    let started = match utc_text(recording.started_at_utc) {
        Some(started) => started,
        None => {
            return None;
        },
    };
    let stopped = match recording.stopped_at_utc {
        Some(at) => match utc_text(at) {
            Some(at) => quote(at.as_str()),
            None => {
                return None;
            },
        },
        None => "null".to_owned(),
    };
    let count: usize = participants.len();
    let mut entries: Vec<String> = Vec::new();
    let mut i: usize = 0;
    assert(texts_of(entries@) =~= all.take(0));
    while i < count
        invariant
            finished matches Some((plan, written)) ==> written@.len() == plan.tracks@.len(),
            everyone == views(participants@),
            outcome == outcome_of(finished),
            all == participant_texts(everyone, outcome),
            count == participants@.len(),
            i <= count,
            texts_of(entries@) == all.take(i as int),
            forall|k: int| 0 <= k < i ==> showable(#[trigger] everyone[k]),
        decreases count - i,
    {
        assert(everyone[i as int] == participants@[i as int]@);
        match participant_text(&participants[i], finished) {
            Some(entry) => {
                let ghost before = entries@;
                entries.push(entry);
                proof {
                    assert(all[i as int] == entry@);
                    assert(texts_of(entries@) =~= texts_of(before).push(entry@));
                    assert(all.take(i + 1) =~= all.take(i as int).push(all[i as int]));
                }
            },
            None => {
                return None;
            },
        }
        i += 1;
    }
    assert(all.take(count as int) =~= all);
    let list = list_text(&entries, 1);
    let samples = match finished {
        Some((plan, _)) => decimal(plan.timeline_samples),
        None => "null".to_owned(),
    };
    let id = uuid_text(recording.id);
    let session_id = uuid_text(session.id);
    let generation = signed_decimal(session.generation);
    let mut writer = IndentedWriter::new(0);
    writer.number("channels", 1);
    writer.raw("participants", list.as_str());
    writer.text("recording_id", id.as_str());
    writer.raw("room_generation", generation.as_str());
    writer.text("room_name", ROOM);
    writer.text("room_session_id", session_id.as_str());
    writer.text("sample_format", "s16le");
    writer.number("sample_rate", SAMPLE_RATE as u64);
    writer.text("started_at", started.as_str());
    writer.text("status", status_name(&recording.status));
    writer.raw("stopped_at", stopped.as_str());
    writer.raw("timeline_samples", samples.as_str());
    assert(writer@ =~= session_members(recording@, *session, everyone, outcome));
    Some(writer.finish())
}

// Segments.

/// What is written down of a segment that has ended.
pub fn segment_text(track_sid: &str, end: &SegmentEnd) -> (text: String)
    ensures
        text@ == indented_object(
            seq![
                ("first_frame_at_ns"@, decimal_text(end.first_ns as nat)),
                ("last_frame_at_ns"@, decimal_text(end.last_ns as nat)),
                ("sample_count"@, decimal_text(end.samples as nat)),
                ("status"@, json_string("closed"@)),
                ("timeline_start_sample"@, decimal_text(end.timeline_start as nat)),
                ("track_sid"@, json_string(track_sid@)),
            ],
            0,
        ),
{
    let mut writer = IndentedWriter::new(0);
    writer.number("first_frame_at_ns", end.first_ns);
    writer.number("last_frame_at_ns", end.last_ns);
    writer.number("sample_count", end.samples);
    writer.text("status", "closed");
    writer.number("timeline_start_sample", end.timeline_start);
    writer.text("track_sid", track_sid);
    assert(writer@ =~= seq![
        ("first_frame_at_ns"@, decimal_text(end.first_ns as nat)),
        ("last_frame_at_ns"@, decimal_text(end.last_ns as nat)),
        ("sample_count"@, decimal_text(end.samples as nat)),
        ("status"@, json_string("closed"@)),
        ("timeline_start_sample"@, decimal_text(end.timeline_start as nat)),
        ("track_sid"@, json_string(track_sid@)),
    ]);
    writer.finish()
}

/// A number is written by its digits, behind a minus where it is negative.
pub proof fn law_signed_text_stands_for_the_number(n: int)
    ensures
        n >= 0 ==> crate::text::decimal_value(signed_text(n)) == n,
        n < 0 ==> signed_text(n)[0] == '-' && crate::text::decimal_value(signed_text(n).skip(1))
            == -n,
{
    reveal_strlit("-");
    if n >= 0 {
        crate::text::law_decimal_text_stands_for_the_number(n as nat);
    } else {
        crate::text::law_decimal_text_stands_for_the_number((-n) as nat);
        assert(signed_text(n).skip(1) =~= decimal_text((-n) as nat));
    }
}

/// A participant is given the outcome of the first track that is theirs, and of no other's;
/// where there is none, or the recording goes on, none.
pub proof fn law_everyone_is_given_their_own_track(
    outcome: Outcome,
    participant_id: u128,
    i: int,
)
    requires
        0 <= i <= outcome.tracks.len(),
        forall|j: int|
            0 <= j < i ==> (#[trigger] outcome.tracks[j]).participant_id != participant_id,
        i < outcome.tracks.len() ==> outcome.tracks[i].participant_id == participant_id,
    ensures
        track_outcome(Some(outcome), participant_id) == if i < outcome.tracks.len() {
            Some((outcome.tracks[i], outcome.problems[i]))
        } else {
            None
        },
        track_outcome(None, participant_id) is None,
{
    lemma_track_place(outcome.tracks, participant_id, i);
}

proof fn lemma_track_place(tracks: Seq<TrackPlanModel>, participant_id: u128, i: int)
    requires
        0 <= i <= tracks.len(),
        forall|j: int| 0 <= j < i ==> (#[trigger] tracks[j]).participant_id != participant_id,
        i < tracks.len() ==> tracks[i].participant_id == participant_id,
    ensures
        track_place(tracks, participant_id) == if i < tracks.len() {
            Some(i)
        } else {
            None
        },
    decreases tracks.len(),
{
    if tracks.len() > 0 {
        let shorter = tracks.drop_last();
        assert forall|j: int| 0 <= j < shorter.len() implies #[trigger] shorter[j]
            == tracks[j] by {}
        if i < tracks.len() {
            lemma_track_place(shorter, participant_id, i);
        } else {
            assert(tracks[i - 1].participant_id != participant_id);
            lemma_track_place(shorter, participant_id, i - 1);
        }
    }
}

/// What the session says of a participant: the instants and names that are kept of them and,
/// once the recording is finished, the file, the number of segments and the warning of their
/// track.
pub proof fn law_what_the_session_says_of_a_participant(
    p: ParticipantModel,
    track: Option<(TrackPlanModel, Option<Seq<char>>)>,
)
    ensures
        ({
            let members = participant_members(p, track);
            &&& members.len() == 10
            &&& members[0] == ("created_at"@, json_string(shown_time(p.created_at as int)))
            &&& members[1].0 == "final_file"@
            &&& members[2] == ("id"@, json_string(hyphenated_text(p.id)))
            &&& members[3] == ("last_seen_at"@, json_string(shown_time(p.last_seen_at as int)))
            &&& members[4] == ("livekit_identity"@, json_string(p.livekit_identity))
            &&& members[5] == ("nickname"@, json_string(p.nickname))
            &&& members[6] == ("participant_id"@, json_string(hyphenated_text(p.id)))
            &&& members[7] == ("role"@, json_string(if p.role is Host {
                "host"@
            } else {
                "participant"@
            }))
            &&& members[8].0 == "segments"@
            &&& members[9].0 == "warnings"@
            &&& track is None ==> members[1].1 == "null"@ && members[8].1 == decimal_text(0)
                && members[9].1 == "[]"@
            &&& track is Some ==> members[1].1 == json_string((track->0).0.final_file)
                && members[8].1 == decimal_text((track->0).0.segments.len()) && members[9].1
                == match (track->0).1 {
                Some(reason) => indented_list(seq![json_string(reason)], 3),
                None => "[]"@,
            }
        }),
{
}

/// What the session says of a recording: how far it has come, when it started and stopped, and
/// the room session it belongs to; mono, 48000 samples a second, 16 bits; how long its tracks
/// are, once it is finished; and everyone, in turn.
pub proof fn law_what_the_session_says_of_a_recording(
    r: RecordingModel,
    session: RoomSession,
    participants: Seq<ParticipantModel>,
    outcome: Option<Outcome>,
    i: int,
)
    requires
        0 <= i < participants.len(),
    ensures
        ({
            let members = session_members(r, session, participants, outcome);
            let texts = participant_texts(participants, outcome);
            &&& members.len() == 12
            &&& members[0] == ("channels"@, decimal_text(1))
            &&& members[1] == ("participants"@, indented_list(texts, 1))
            &&& texts.len() == participants.len()
            &&& texts[i] == indented_object(
                participant_members(participants[i], track_outcome(outcome, participants[i].id)),
                2,
            )
            &&& members[2] == ("recording_id"@, json_string(hyphenated_text(r.id)))
            &&& members[3] == ("room_generation"@, signed_text(session.generation as int))
            &&& members[4] == ("room_name"@, json_string("main"@))
            &&& members[5] == ("room_session_id"@, json_string(hyphenated_text(session.id)))
            &&& members[6] == ("sample_format"@, json_string("s16le"@))
            &&& members[7] == ("sample_rate"@, decimal_text(48_000))
            &&& members[8] == ("started_at"@, json_string(shown_time(r.started_at_utc as int)))
            &&& members[9] == ("status"@, json_string(status_text(r.status)))
            &&& members[10] == ("stopped_at"@, match r.stopped_at_utc {
                Some(at) => json_string(shown_time(at as int)),
                None => "null"@,
            })
            &&& members[11] == ("timeline_samples"@, match outcome {
                Some(o) => decimal_text(o.timeline_samples as nat),
                None => "null"@,
            })
        }),
{
}

/// The manifest says of every track whose it is, under which nickname, which file it is, of how
/// many segments it is made, and why the file could not be written where it was not.
pub proof fn law_what_the_manifest_says_of_a_track(
    track: TrackPlanModel,
    problem: Option<Seq<char>>,
)
    ensures
        track_members(track, problem) == seq![
            ("final_file"@, json_string(track.final_file)),
            ("nickname"@, json_string(track.nickname)),
            ("participant_id"@, json_string(hyphenated_text(track.participant_id))),
            ("segments"@, decimal_text(track.segments.len())),
            (
                "warnings"@,
                match problem {
                    Some(reason) => indented_list(seq![json_string(reason)], 3),
                    None => "[]"@,
                },
            ),
        ],
{
    assert(track_members(track, problem) =~= seq![
        ("final_file"@, json_string(track.final_file)),
        ("nickname"@, json_string(track.nickname)),
        ("participant_id"@, json_string(hyphenated_text(track.participant_id))),
        ("segments"@, decimal_text(track.segments.len())),
        (
            "warnings"@,
            match problem {
                Some(reason) => indented_list(seq![json_string(reason)], 3),
                None => "[]"@,
            },
        ),
    ]);
}

/// Which sessions can be shown: those of which all instants lie in the calendar.
pub proof fn law_which_sessions_can_be_shown(
    r: RecordingModel,
    participants: Seq<ParticipantModel>,
)
    ensures
        session_showable(r, participants) <==> {
            &&& in_calendar(r.started_at_utc as int)
            &&& r.stopped_at_utc is Some ==> in_calendar(r.stopped_at_utc->0 as int)
            &&& forall|i: int|
                0 <= i < participants.len() ==> in_calendar(
                    (#[trigger] participants[i]).created_at as int,
                ) && in_calendar(participants[i].last_seen_at as int)
        },
{
    if session_showable(r, participants) {
        assert forall|i: int| 0 <= i < participants.len() implies in_calendar(
            (#[trigger] participants[i]).created_at as int,
        ) && in_calendar(participants[i].last_seen_at as int) by {
            assert(showable(participants[i]));
        }
    }
}

/// The manifest names the recording and the length of its tracks, and says of each track what is
/// to be said of it: a warning where its own file was not written, with the reason.
pub proof fn law_what_the_manifest_says(
    recording_id: u128,
    plan: FinalPlan,
    written: Seq<Result<(), String>>,
    i: int,
)
    requires
        written.len() == plan.tracks@.len(),
        0 <= i < written.len(),
    ensures
        ({
            let texts = track_texts(views(plan.tracks@), problems(written));
            &&& manifest_text(recording_id, plan, written) == indented_object(
                seq![
                    ("participants"@, indented_list(texts, 1)),
                    ("recording_id"@, json_string(hyphenated_text(recording_id))),
                    ("timeline_samples"@, decimal_text(plan.timeline_samples as nat)),
                ],
                0,
            )
            &&& texts.len() == plan.tracks@.len()
            &&& texts[i] == indented_object(
                track_members(plan.tracks@[i]@, match written[i] {
                    Ok(_) => None,
                    Err(reason) => Some(reason@),
                }),
                2,
            )
        }),
{
    assert(views(plan.tracks@)[i] == plan.tracks@[i]@);
    assert(problems(written)[i] == problem(written[i]));
}

} // verus!
