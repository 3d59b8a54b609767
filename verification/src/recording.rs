//! Starting, stopping and finishing recordings, and the segments of their tracks.

use vstd::prelude::*;

use crate::auth::{hosts, is_online_host, is_participant, participates};
use crate::clock::{elapsed_between, elapsed_ns, timeline_sample, timeline_start_sample};
use crate::domain::{
    finished, is_final, is_open, is_stopped, open_for_tracks, stopped, Participant,
    ParticipantModel, RecordingModel, RecordingSession, RecordingStatus, RoomSession, SegmentModel,
    SegmentRow, SegmentRowModel, TrackSegment, TrackSegmentStatus,
};
use crate::egress::{callback_accepted, verify_egress_signature, EgressQuery};
use crate::ids::{hyphenated_text, uuid_text};
use crate::laws::{
    law_participants_are_all_listed, law_segments_are_all_listed, law_track_is_found,
    lemma_count_is_cardinality,
};
use crate::model::{participant_keys, row_holds, segment_keys, StoreError, StoreModel};
use crate::order::sorted_by;
use crate::pcm::{SegmentEnd, SegmentProgress};
use crate::reply::Refusal;
use crate::store::{views, Store};
use crate::text::{
    decimal4, decimal_text, join_path, joined, law_decimal_text_stands_for_the_number,
    law_joined_paths, law_padded_decimal_stands_for_the_number, padded_decimal, safe_filename,
    safe_filename_of, safe_track_id, safe_track_id_of,
};
use crate::SAMPLE_RATE;

verus! {

/// Free space that a recording needs to be started: 256 MiB.
pub const MIN_FREE_BYTES: u64 = 268_435_456;

/// Whether there is room on the disk for a recording.
pub fn check_disk(available_bytes: u64, minimum_bytes: u64) -> (checked: Result<(), Refusal>)
    ensures
        checked == if available_bytes < minimum_bytes {
            Err::<(), Refusal>(Refusal::DiskFull)
        } else {
            Ok(())
        },
{
    if available_bytes < minimum_bytes {
        Err(Refusal::DiskFull)
    } else {
        Ok(())
    }
}

/// Whether a recording may be started: the host must ask, and where one is in progress
/// it is given back instead.
pub fn start_gate(store: &Store, identity: Option<(u128, u128)>) -> (gate: Result<
    Option<RecordingSession>,
    Refusal,
>)
    requires
        store.wf(),
    ensures
        if hosts(store@, identity) {
            &&& gate is Ok
            &&& match gate->Ok_0 {
                Some(r) => store@.active_recording() == Some(r@),
                None => store@.active_recording() is None,
            }
        } else {
            gate is Err && gate->Err_0 == Refusal::HostRequired
        },
{
    if !is_online_host(store, identity) {
        return Err(Refusal::HostRequired);
    }
    Ok(store.active_recording())
}

/// Where a recording is kept.
pub open spec fn recording_path(root: Seq<char>, id: u128) -> Seq<char> {
    joined(root, "rec_"@ + hyphenated_text(id))
}

/// Where a recording is kept.
pub fn recording_dir(root: &str, id: u128) -> (dir: String)
    ensures
        dir@ == recording_path(root@, id),
{
    let mut name = "rec_".to_owned();
    let id_text = uuid_text(id);
    name.append(id_text.as_str());
    join_path(root, name.as_str())
}

/// A recording that has just been started.
pub open spec fn new_recording(id: u128, dir: Seq<char>, now: i128) -> RecordingModel {
    RecordingModel {
        id,
        status: RecordingStatus::Starting,
        started_at_utc: now,
        stopped_at_utc: None,
        target_sample_rate: SAMPLE_RATE,
        target_channels: 1,
        target_sample_format: "s16le"@,
        output_dir: dir,
        version: 1,
    }
}

/// Adds a recording under the active room session.
pub fn open_recording(store: &mut Store, id: u128, dir: &str, now: i128) -> (opened: Result<
    RecordingSession,
    Refusal,
>)
    requires
        old(store).wf(),
    ensures
        final(store).wf(),
        match old(store)@.active_session() {
            None => final(store)@ == old(store)@ && opened is Err && opened->Err_0
                == Refusal::Internal,
            Some(session) => {
                let (after, done) = old(store)@.with_recording(
                    new_recording(id, dir@, now),
                    session,
                );
                &&& final(store)@ == after
                &&& match done {
                    Ok(_) => opened is Ok && opened->Ok_0@ == new_recording(id, dir@, now),
                    Err(_) => opened is Err && opened->Err_0 == Refusal::Internal,
                }
            },
        },
{
    let session = match store.active_room_session() {
        Some(session) => session,
        None => {
            return Err(Refusal::Internal);
        },
    };
    let recording = RecordingSession {
        id,
        status: RecordingStatus::Starting,
        started_at_utc: now,
        stopped_at_utc: None,
        target_sample_rate: SAMPLE_RATE,
        target_channels: 1,
        target_sample_format: "s16le".to_owned(),
        output_dir: dir.to_owned(),
        version: 1,
    };
    match store.create_recording(&recording, &session) {
        Ok(()) => Ok(recording),
        Err(_) => Err(Refusal::Internal),
    }
}

/// A recording with another status and the next version.
pub open spec fn advanced(r: RecordingModel, status: RecordingStatus) -> RecordingModel {
    RecordingModel { status, version: (r.version + 1) as i64, ..r }
}

/// Gives a recording another status and the next version.
pub fn advance(store: &mut Store, recording: &mut RecordingSession, status: RecordingStatus)
    requires
        old(store).wf(),
        old(recording).version < i64::MAX,
    ensures
        final(store).wf(),
        final(recording)@ == advanced(old(recording)@, status),
        final(store)@ == old(store)@.with_progress(final(recording)@),
{
    recording.status = status;
    recording.version = recording.version + 1;
    store.update_recording(recording);
}

/// What a request to stop a recording comes to.
#[derive(Debug)]
pub enum StopStep {
    /// It was stopped before.
    Already(RecordingSession),
    /// These egresses are to be stopped, and then the recording is to be finished.
    Stop(RecordingSession, Vec<String>),
}

/// The egresses of some segments.
pub open spec fn egress_ids(rows: Seq<SegmentRowModel>) -> Seq<Seq<char>>
    decreases rows.len(),
{
    if rows.len() == 0 {
        Seq::empty()
    } else {
        let before = egress_ids(rows.drop_last());
        match rows.last().egress_id {
            Some(id) => before.push(id),
            None => before,
        }
    }
}

/// The egresses of some segments.
fn collect_egress_ids(rows: &Vec<SegmentRow>) -> (ids: Vec<String>)
    ensures
        views(ids@) == egress_ids(views(rows@)),
{
    let count: usize = rows.len();
    let mut ids: Vec<String> = Vec::new();
    let mut i: usize = 0;
    assert(views(ids@) =~= Seq::empty());
    while i < count
        invariant
            count == rows@.len(),
            i <= count,
            views(ids@) == egress_ids(views(rows@).take(i as int)),
        decreases count - i,
    {
        proof {
            let all = views(rows@);
            assert(all.take(i + 1).drop_last() =~= all.take(i as int));
            assert(all.take(i + 1).last() == rows@[i as int]@);
        }
        if let Some(id) = &rows[i].egress_id {
            let ghost before = ids@;
            let copy = id.clone();
            ids.push(copy);
            assert(views(ids@) =~= views(before).push(id@));
        }
        i += 1;
    }
    assert(views(rows@).take(count as int) =~= views(rows@));
    ids
}

/// Begins to stop a recording. One that was stopped before is given back unchanged.
pub fn begin_stop(store: &mut Store, id: u128) -> (step: Result<StopStep, Refusal>)
    requires
        old(store).wf(),
        old(store)@.recordings.has(id) && !is_stopped(old(store)@.recordings.map[id].status)
            ==> old(store)@.recordings.map[id].version < i64::MAX,
    ensures
        final(store).wf(),
        match old(store)@.recordings.get(id) {
            None => final(store)@ == old(store)@ && step is Err && step->Err_0
                == Refusal::RecordingNotFound,
            Some(r) => if is_stopped(r.status) {
                &&& final(store)@ == old(store)@
                &&& step is Ok
                &&& step->Ok_0 is Already
                &&& step->Ok_0->Already_0@ == r
            } else {
                let stopping = advanced(r, RecordingStatus::Stopping);
                &&& final(store)@ == old(store)@.with_progress(stopping)
                &&& step is Ok
                &&& step->Ok_0 is Stop
                &&& step->Ok_0->Stop_0@ == stopping
                &&& exists|rows: Seq<SegmentRowModel>|
                    #[trigger] sorted_by(
                        old(store)@.segments_of(id),
                        segment_keys(old(store)@.segments_of(id)),
                        rows,
                    ) && views(step->Ok_0->Stop_1@) == egress_ids(rows)
                &&& forall|k: u128|
                    old(store)@.segments.has(k) && (
                    #[trigger] old(store)@.segments.map[k]).segment.recording_id == id
                        && old(store)@.segments.map[k].egress_id is Some ==> views(
                        step->Ok_0->Stop_1@,
                    ).contains(old(store)@.segments.map[k].egress_id->0)
                &&& forall|egress_id: Seq<char>| #[trigger]
                    views(step->Ok_0->Stop_1@).contains(egress_id) ==> exists|k: u128|
                        old(store)@.segments.has(k) && (
                        #[trigger] old(store)@.segments.map[k]).segment.recording_id == id
                            && old(store)@.segments.map[k].egress_id == Some(egress_id)
            },
        },
{
    let mut recording = match store.recording(id) {
        Some(recording) => recording,
        None => {
            return Err(Refusal::RecordingNotFound);
        },
    };
    if stopped(recording.status) {
        return Ok(StopStep::Already(recording));
    }
    advance(store, &mut recording, RecordingStatus::Stopping);
    let rows = store.segments(id);
    let ids = collect_egress_ids(&rows);
    proof {
        assert(store@.segments_of(id) == old(store)@.segments_of(id));
        assert(sorted_by(
            old(store)@.segments_of(id),
            segment_keys(old(store)@.segments_of(id)),
            views(rows@),
        ));
        law_every_egress_is_stopped(old(store)@, id, views(rows@), views(ids@));
    }
    Ok(StopStep::Stop(recording, ids))
}

/// How long the streams of a stopped recording are waited for, in milliseconds.
pub const STREAM_PATIENCE_MS: u64 = 10_000;

/// How often the streams of a stopped recording are looked at, in milliseconds.
pub const STREAM_POLL_MS: u64 = 100;

/// How long to wait before the streams of a stopped recording are looked at again; `None`
/// where they have ended, or were waited for long enough.
pub fn stream_wait(streaming: bool, waited_ms: u64) -> (wait: Option<u64>)
    ensures
        wait == if streaming && waited_ms < STREAM_PATIENCE_MS {
            Some(STREAM_POLL_MS)
        } else {
            None
        },
{
    if streaming && waited_ms < STREAM_PATIENCE_MS {
        Some(STREAM_POLL_MS)
    } else {
        None
    }
}

/// The completed form of a recording.
pub open spec fn completed_at(r: RecordingModel, now: i128) -> RecordingModel {
    RecordingModel { stopped_at_utc: Some(now), ..advanced(r, RecordingStatus::Completed) }
}

/// Notes that a recording is complete.
pub fn complete_recording(store: &mut Store, recording: &mut RecordingSession, now: i128)
    requires
        old(store).wf(),
        old(recording).version < i64::MAX,
    ensures
        final(store).wf(),
        final(recording)@ == completed_at(old(recording)@, now),
        final(store)@ == old(store)@.with_progress(final(recording)@),
{
    recording.status = RecordingStatus::Completed;
    recording.stopped_at_utc = Some(now);
    recording.version = recording.version + 1;
    store.update_recording(recording);
}

// Finishing.

/// Where the audio of a segment ends on the timeline.
pub open spec fn end_of(row: SegmentRowModel) -> int {
    let end = row.segment.timeline_start_sample + row.segment.sample_count;
    if end > u64::MAX {
        u64::MAX as int
    } else {
        end
    }
}

/// The greatest of a number and the ends of some segments.
pub open spec fn latest_end(rows: Seq<SegmentRowModel>, least: int) -> int
    decreases rows.len(),
{
    if rows.len() == 0 {
        least
    } else {
        let before = latest_end(rows.drop_last(), least);
        let end = end_of(rows.last());
        if end > before {
            end
        } else {
            before
        }
    }
}

/// How many samples every track of a recording has.
fn timeline_length(rows: &Vec<SegmentRow>, runtime_samples: u64) -> (samples: u64)
    ensures
        samples == latest_end(views(rows@), runtime_samples as int),
{
    let count: usize = rows.len();
    let mut samples: u64 = runtime_samples;
    let mut i: usize = 0;
    while i < count
        invariant
            count == rows@.len(),
            i <= count,
            samples == latest_end(views(rows@).take(i as int), runtime_samples as int),
        decreases count - i,
    {
        proof {
            let all = views(rows@);
            assert(all.take(i + 1).drop_last() =~= all.take(i as int));
            assert(all.take(i + 1).last() == rows@[i as int]@);
        }
        let end: u64 = rows[i].segment.timeline_start_sample.saturating_add(
            rows[i].segment.sample_count,
        );
        if end > samples {
            samples = end;
        }
        i += 1;
    }
    assert(views(rows@).take(count as int) =~= views(rows@));
    samples
}

/// The segments of a participant that did not fail.
pub open spec fn audible(rows: Seq<SegmentRowModel>, participant_id: u128) -> Seq<SegmentRowModel> {
    rows.filter(
        |r: SegmentRowModel|
            r.segment.participant_id == participant_id && !(r.segment.status is Failed),
    )
}

/// The starts and the files of some segments.
pub open spec fn sources(rows: Seq<SegmentRowModel>) -> Seq<(u64, Seq<char>)> {
    rows.map_values(
        |r: SegmentRowModel| (r.segment.timeline_start_sample, r.segment.pcm_path),
    )
}

/// What a list of starts and files holds.
pub open spec fn source_views(list: Seq<(u64, String)>) -> Seq<(u64, Seq<char>)> {
    list.map_values(|s: (u64, String)| (s.0, s.1@))
}

/// The starts and the files of a participant's segments that did not fail.
fn collect_sources(rows: &Vec<SegmentRow>, participant_id: u128) -> (list: Vec<(u64, String)>)
    ensures
        source_views(list@) == sources(audible(views(rows@), participant_id)),
{
    let ghost all = views(rows@);
    let ghost p = |r: SegmentRowModel|
        r.segment.participant_id == participant_id && !(r.segment.status is Failed);
    let count: usize = rows.len();
    let mut list: Vec<(u64, String)> = Vec::new();
    let mut i: usize = 0;
    proof {
        reveal(Seq::filter);
        assert(all.take(0).filter(p) =~= Seq::empty());
        assert(source_views(list@) =~= sources(all.take(0).filter(p)));
    }
    while i < count
        invariant
            all == views(rows@),
            p == (|r: SegmentRowModel|
                r.segment.participant_id == participant_id && !(r.segment.status is Failed)),
            count == rows@.len(),
            i <= count,
            source_views(list@) == sources(all.take(i as int).filter(p)),
        decreases count - i,
    {
        let row = &rows[i];
        let failed = match row.segment.status {
            TrackSegmentStatus::Failed => true,
            _ => false,
        };
        proof {
            reveal(Seq::filter);
            assert(all.take(i + 1).drop_last() =~= all.take(i as int));
            assert(all.take(i + 1).last() == row@);
            assert(p(row@) == (row.segment.participant_id == participant_id && !failed));
        }
        if row.segment.participant_id == participant_id && !failed {
            let ghost before = list@;
            let path = row.segment.pcm_path.clone();
            list.push((row.segment.timeline_start_sample, path));
            proof {
                assert(source_views(list@) =~= source_views(before).push(
                    (row.segment.timeline_start_sample, row.segment.pcm_path@),
                ));
                assert(sources(all.take(i as int).filter(p).push(row@)) =~= sources(
                    all.take(i as int).filter(p),
                ).push((row.segment.timeline_start_sample, row.segment.pcm_path@)));
            }
        }
        i += 1;
    }
    assert(all.take(count as int) =~= all);
    list
}

/// The file name of a participant's track.
pub open spec fn track_file_name(participant_id: u128, nickname: Seq<char>) -> Seq<char> {
    "p_"@ + hyphenated_text(participant_id) + "_"@ + safe_filename_of(nickname) + ".wav"@
}

/// The file name of a participant's track.
pub fn track_name(participant_id: u128, nickname: &str) -> (name: String)
    ensures
        name@ == track_file_name(participant_id, nickname@),
{
    let mut name = "p_".to_owned();
    let id = uuid_text(participant_id);
    let safe = safe_filename(nickname);
    name.append(id.as_str());
    name.append("_");
    name.append(safe.as_str());
    name.append(".wav");
    name
}

/// A path below a recording's directory.
pub open spec fn below(dir: Seq<char>, part: Seq<char>, name: Seq<char>) -> Seq<char> {
    joined(joined(dir, part), name)
}

/// A path below a recording's directory.
fn path_below(dir: &str, part: &str, name: &str) -> (path: String)
    ensures
        path@ == below(dir@, part@, name@),
{
    let inner = join_path(dir, part);
    join_path(inner.as_str(), name)
}

/// The track that is to be written for a participant.
#[derive(Debug)]
pub struct TrackPlan {
    pub participant_id: u128,
    pub nickname: String,
    /// The file, as the manifest gives it.
    pub final_file: String,
    pub output: String,
    pub tmp: String,
    /// The start and the file of each segment.
    pub segments: Vec<(u64, String)>,
}

/// What a track plan holds.
#[verifier::ext_equal]
pub struct TrackPlanModel {
    pub participant_id: u128,
    pub nickname: Seq<char>,
    pub final_file: Seq<char>,
    pub output: Seq<char>,
    pub tmp: Seq<char>,
    pub segments: Seq<(u64, Seq<char>)>,
}

impl View for TrackPlan {
    type V = TrackPlanModel;

    open spec fn view(&self) -> TrackPlanModel {
        TrackPlanModel {
            participant_id: self.participant_id,
            nickname: self.nickname@,
            final_file: self.final_file@,
            output: self.output@,
            tmp: self.tmp@,
            segments: source_views(self.segments@),
        }
    }
}

/// The track of a participant.
pub open spec fn planned(p: ParticipantModel, rows: Seq<SegmentRowModel>, dir: Seq<char>) -> TrackPlanModel {
    let name = track_file_name(p.id, p.nickname);
    TrackPlanModel {
        participant_id: p.id,
        nickname: p.nickname,
        final_file: "tracks/"@ + name,
        output: below(dir, "tracks"@, name),
        tmp: below(dir, "tmp"@, name + ".tmp"@),
        segments: sources(audible(rows, p.id)),
    }
}

/// The tracks of the participants who were heard.
pub open spec fn planned_tracks(
    participants: Seq<ParticipantModel>,
    rows: Seq<SegmentRowModel>,
    dir: Seq<char>,
) -> Seq<TrackPlanModel>
    decreases participants.len(),
{
    if participants.len() == 0 {
        Seq::empty()
    } else {
        let before = planned_tracks(participants.drop_last(), rows, dir);
        let last = participants.last();
        if audible(rows, last.id).len() == 0 {
            before
        } else {
            before.push(planned(last, rows, dir))
        }
    }
}

/// What is to be written when a recording is finished.
#[derive(Debug)]
pub struct FinalPlan {
    pub timeline_samples: u64,
    pub tracks: Vec<TrackPlan>,
}

/// Plans the tracks of some participants.
fn plan_tracks(participants: &Vec<Participant>, rows: &Vec<SegmentRow>, dir: &str) -> (tracks: Vec<
    TrackPlan,
>)
    ensures
        views(tracks@) == planned_tracks(views(participants@), views(rows@), dir@),
{
    let ghost all = views(participants@);
    let count: usize = participants.len();
    let mut tracks: Vec<TrackPlan> = Vec::new();
    let mut i: usize = 0;
    assert(views(tracks@) =~= Seq::empty());
    while i < count
        invariant
            all == views(participants@),
            count == participants@.len(),
            i <= count,
            views(tracks@) == planned_tracks(all.take(i as int), views(rows@), dir@),
        decreases count - i,
    {
        let participant = &participants[i];
        proof {
            assert(all.take(i + 1).drop_last() =~= all.take(i as int));
            assert(all.take(i + 1).last() == participant@);
        }
        let segments = collect_sources(rows, participant.id);
        proof {
            assert(source_views(segments@).len() == segments@.len());
            assert(sources(audible(views(rows@), participant.id)).len() == audible(
                views(rows@),
                participant.id,
            ).len());
        }
        if segments.len() > 0 {
            let name = track_name(participant.id, participant.nickname.as_str());
            let mut final_file = "tracks/".to_owned();
            final_file.append(name.as_str());
            let output = path_below(dir, "tracks", name.as_str());
            let mut tmp_name = name.clone();
            tmp_name.append(".tmp");
            let tmp = path_below(dir, "tmp", tmp_name.as_str());
            let plan = TrackPlan {
                participant_id: participant.id,
                nickname: participant.nickname.clone(),
                final_file,
                output,
                tmp,
                segments,
            };
            let ghost before = tracks@;
            tracks.push(plan);
            assert(views(tracks@) =~= views(before).push(plan@));
            assert(plan@ =~= planned(participant@, views(rows@), dir@));
        }
        i += 1;
    }
    assert(all.take(count as int) =~= all);
    tracks
}

/// Whether a plan is that of a recording with these participants and segments: all tracks
/// are as long as the recording ran, or as the latest segment reaches, and each participant
/// who was heard has one.
pub open spec fn plans(
    plan: FinalPlan,
    m: StoreModel,
    r: RecordingModel,
    now: i128,
    participants: Seq<ParticipantModel>,
    rows: Seq<SegmentRowModel>,
) -> bool {
    &&& sorted_by(
        m.participants.list(),
        participant_keys(m.participants.list()),
        participants,
    )
    &&& sorted_by(m.segments_of(r.id), segment_keys(m.segments_of(r.id)), rows)
    &&& views(plan.tracks@) == planned_tracks(participants, rows, r.output_dir)
    &&& plan.timeline_samples == latest_end(
        rows,
        timeline_sample(elapsed_between(r.started_at_utc as int, now as int)),
    )
}

/// Plans what is to be written when a recording is finished.
pub fn plan_final(store: &Store, recording: &RecordingSession, now: i128) -> (plan: FinalPlan)
    requires
        store.wf(),
    ensures
        exists|participants: Seq<ParticipantModel>, rows: Seq<SegmentRowModel>|
            #[trigger] plans(plan, store@, recording@, now, participants, rows),
        forall|k: u128|
            store@.segments.has(k) && (#[trigger] store@.segments.map[k]).segment.recording_id
                == recording.id ==> ({
                let segment = store@.segments.map[k].segment;
                let end = segment.timeline_start_sample + segment.sample_count;
                plan.timeline_samples >= if end > u64::MAX {
                    u64::MAX as int
                } else {
                    end
                }
            }),
{
    let rows = store.segments(recording.id);
    let participants = store.all_participants();
    let elapsed: u64 = elapsed_ns(recording.started_at_utc, now);
    let runtime: u64 = timeline_start_sample(elapsed, 0);
    let timeline_samples: u64 = timeline_length(&rows, runtime);
    let tracks = plan_tracks(&participants, &rows, recording.output_dir.as_str());
    let plan = FinalPlan { timeline_samples, tracks };
    proof {
        assert(plans(plan, store@, recording@, now, views(participants@), views(rows@)));
        law_timeline_is_as_long_as_it_must_be(
            plan,
            store@,
            recording@,
            now,
            views(participants@),
            views(rows@),
        );
    }
    plan
}

// Segments.

/// Why no egress was planned for a track.
#[derive(Clone, Copy, Debug, PartialEq, Eq, Structural)]
pub enum EgressRefusal {
    /// The recording takes no new tracks.
    NotAccepting,
}

/// How many segments of a recording a participant has.
pub open spec fn segment_count(m: StoreModel, recording_id: u128, participant_id: u128) -> nat {
    m.segments_of(recording_id).filter(
        |r: SegmentRowModel| r.segment.participant_id == participant_id,
    ).len()
}

/// How many segments of a recording a participant has.
pub fn segments_for_participant(store: &Store, recording_id: u128, participant_id: u128) -> (count:
    usize)
    requires
        store.wf(),
    ensures
        count == segment_count(store@, recording_id, participant_id),
        count <= store@.segments.keys.len(),
{
    let rows = store.segments(recording_id);
    let ghost all = views(rows@);
    let ghost p = |r: SegmentRowModel| r.segment.participant_id == participant_id;
    let total: usize = rows.len();
    let mut count: usize = 0;
    let mut i: usize = 0;
    proof {
        reveal(Seq::filter);
    }
    while i < total
        invariant
            all == views(rows@),
            p == (|r: SegmentRowModel| r.segment.participant_id == participant_id),
            total == rows@.len(),
            i <= total,
            count <= i,
            count == all.take(i as int).filter(p).len(),
        decreases total - i,
    {
        proof {
            reveal(Seq::filter);
            assert(all.take(i + 1).drop_last() =~= all.take(i as int));
            assert(all.take(i + 1).last() == rows@[i as int]@);
            assert(p(rows@[i as int]@) == (rows@[i as int].segment.participant_id
                == participant_id));
        }
        if rows[i].segment.participant_id == participant_id {
            count += 1;
        }
        i += 1;
    }
    proof {
        assert(all.take(total as int) =~= all);
        let list = store@.segments_of(recording_id);
        crate::order::lemma_sorted_count(list, segment_keys(list), all, p);
        store@.segments.list().lemma_filter_len(
            |r: SegmentRowModel| r.segment.recording_id == recording_id,
        );
    }
    count
}

/// Where the segments of a participant are kept.
pub open spec fn segment_path(dir: Seq<char>, participant_id: u128) -> Seq<char> {
    below(dir, "segments"@, "p_"@ + hyphenated_text(participant_id))
}

/// Where the segments of a participant are kept.
pub fn segment_dir(output_dir: &str, participant_id: u128) -> (dir: String)
    ensures
        dir@ == segment_path(output_dir@, participant_id),
{
    let mut name = "p_".to_owned();
    let id = uuid_text(participant_id);
    name.append(id.as_str());
    path_below(output_dir, "segments", name.as_str())
}

/// A segment that is about to be opened.
pub open spec fn new_segment(
    id: u128,
    r: RecordingModel,
    participant_id: u128,
    track_sid: Seq<char>,
    index: nat,
) -> SegmentModel {
    SegmentModel {
        id,
        recording_id: r.id,
        participant_id,
        livekit_track_sid: track_sid,
        segment_index: index as u32,
        first_frame_at_ns: 0,
        last_frame_at_ns: None,
        timeline_start_sample: 0,
        sample_count: 0,
        pcm_path: joined(
            segment_path(r.output_dir, participant_id),
            padded_decimal(index, 4) + "_"@ + safe_track_id_of(track_sid) + ".pcm"@,
        ),
        status: TrackSegmentStatus::Opening,
    }
}

/// Adds a segment for a track of an open recording and says whether an egress is to be
/// started for it: not where the track has a segment already.
pub fn plan_track(
    store: &mut Store,
    recording: &RecordingSession,
    participant_id: u128,
    track_sid: &str,
    segment_id: u128,
) -> (planned: Result<Option<TrackSegment>, EgressRefusal>)
    requires
        old(store).wf(),
        is_open(recording.status) && old(store)@.track(recording.id, track_sid@) is None
            ==> segment_count(old(store)@, recording.id, participant_id) < u32::MAX,
    ensures
        final(store).wf(),
        if !is_open(recording.status) {
            final(store)@ == old(store)@ && planned is Err && planned->Err_0
                == EgressRefusal::NotAccepting
        } else {
            let segment = new_segment(
                segment_id,
                recording@,
                participant_id,
                track_sid@,
                segment_count(old(store)@, recording.id, participant_id) + 1,
            );
            let (after, added) = old(store)@.with_segment(segment);
            &&& final(store)@ == after
            &&& planned is Ok
            &&& match planned->Ok_0 {
                Some(s) => added == Ok::<bool, StoreError>(true) && s@ == segment,
                None => added == Ok::<bool, StoreError>(false),
            }
        },
{
    if !open_for_tracks(recording.status) {
        return Err(EgressRefusal::NotAccepting);
    }
    if store.segment(recording.id, track_sid).is_some() {
        return Ok(None);
    }
    let count: usize = segments_for_participant(store, recording.id, participant_id);
    let index: u32 = count as u32 + 1;
    let dir = segment_dir(recording.output_dir.as_str(), participant_id);
    let mut name = decimal4(index);
    name.append("_");
    let safe = safe_track_id(track_sid);
    name.append(safe.as_str());
    name.append(".pcm");
    let segment = TrackSegment {
        id: segment_id,
        recording_id: recording.id,
        participant_id,
        livekit_track_sid: track_sid.to_owned(),
        segment_index: index,
        first_frame_at_ns: 0,
        last_frame_at_ns: None,
        timeline_start_sample: 0,
        sample_count: 0,
        pcm_path: join_path(dir.as_str(), name.as_str()),
        status: TrackSegmentStatus::Opening,
    };
    proof {
        assert(segment@ =~= new_segment(
            segment_id,
            recording@,
            participant_id,
            track_sid@,
            segment_count(old(store)@, recording.id, participant_id) + 1,
        ));
    }
    match store.insert_segment(&segment) {
        Ok(true) => Ok(Some(segment)),
        _ => Ok(None),
    }
}

/// Notes the media server's reply to a request to start an egress; an egress that was not
/// started leaves a failed segment.
pub fn note_egress(
    store: &mut Store,
    recording_id: u128,
    track_sid: &str,
    egress_id: Option<&str>,
)
    requires
        old(store).wf(),
    ensures
        final(store).wf(),
        final(store)@ == match egress_id {
            Some(id) => old(store)@.with_egress(
                recording_id,
                track_sid@,
                Some(id@),
                TrackSegmentStatus::Opening,
            ),
            None => old(store)@.with_egress(
                recording_id,
                track_sid@,
                None,
                TrackSegmentStatus::Failed,
            ),
        },
{
    match egress_id {
        Some(id) => {
            store.set_egress(recording_id, track_sid, Some(id), TrackSegmentStatus::Opening);
        },
        None => {
            store.set_egress(recording_id, track_sid, None, TrackSegmentStatus::Failed);
        },
    }
}

/// What is to be done about a track that was given up.
#[derive(Debug)]
pub enum TrackStop {
    /// Nothing: there is no such segment, or it has ended.
    Nothing,
    /// This egress is to be stopped.
    StopEgress(String),
    /// The segment had no egress and was closed.
    Closed,
}

/// Gives up a track: its egress is to be stopped; where it has none its segment is closed.
pub fn stop_track(store: &mut Store, recording: &RecordingSession, track_sid: &str, now: i128) -> (stop:
    TrackStop)
    requires
        old(store).wf(),
    ensures
        final(store).wf(),
        match old(store)@.track(recording.id, track_sid@) {
            None => stop is Nothing && final(store)@ == old(store)@,
            Some(row) => if is_final(row.segment.status) {
                stop is Nothing && final(store)@ == old(store)@
            } else {
                match row.egress_id {
                    Some(id) => stop is StopEgress && stop->StopEgress_0@ == id && final(store)@
                        == old(store)@,
                    None => {
                        let elapsed = elapsed_between(
                            recording.started_at_utc as int,
                            now as int,
                        );
                        &&& stop is Closed
                        &&& final(store)@ == old(store)@.with_end(
                            recording.id,
                            track_sid@,
                            if elapsed >= row.segment.first_frame_at_ns {
                                elapsed as u64
                            } else {
                                row.segment.first_frame_at_ns
                            },
                            row.segment.sample_count,
                        )
                    },
                }
            },
        },
        forall|k: u128|
            old(store)@.segments.has(k) && (
            #[trigger] old(store)@.segments.map[k]).segment.recording_id == recording.id
                && old(store)@.segments.map[k].segment.livekit_track_sid == track_sid@ ==> {
                let was = old(store)@.segments.map[k];
                let ended = was.segment.status is Closed || was.segment.status is Failed;
                &&& stop is Nothing <==> ended
                &&& stop is StopEgress <==> !ended && was.egress_id is Some
                &&& stop is StopEgress ==> was.egress_id == Some(stop->StopEgress_0@)
                &&& stop is Closed ==> {
                    let is = final(store)@.segments.map[k];
                    &&& is.segment.status is Closed
                    &&& is.segment.sample_count == was.segment.sample_count
                    &&& is.segment.last_frame_at_ns is Some
                    &&& is.segment.last_frame_at_ns->0 >= was.segment.first_frame_at_ns
                }
            },
        !(stop is Closed) ==> final(store)@ == old(store)@,
{
    proof {
        assert forall|k: u128|
            old(store)@.segments.has(k) && (
            #[trigger] old(store)@.segments.map[k]).segment.recording_id == recording.id
                && old(store)@.segments.map[k].segment.livekit_track_sid
                == track_sid@ implies old(store)@.track(recording.id, track_sid@) == Some(
            old(store)@.segments.map[k],
        ) && old(store)@.track_key(recording.id, track_sid@) == Some(k) by {
            law_track_is_found(old(store)@, recording.id, track_sid@, k);
        }
    }
    let row = match store.segment(recording.id, track_sid) {
        Some(row) => row,
        None => {
            return TrackStop::Nothing;
        },
    };
    if finished(row.segment.status) {
        return TrackStop::Nothing;
    }
    match row.egress_id {
        Some(id) => TrackStop::StopEgress(id),
        None => {
            let elapsed: u64 = elapsed_ns(recording.started_at_utc, now);
            let last: u64 = if elapsed >= row.segment.first_frame_at_ns {
                elapsed
            } else {
                row.segment.first_frame_at_ns
            };
            store.close_segment(recording.id, track_sid, last, row.segment.sample_count);
            TrackStop::Closed
        },
    }
}

/// The segment that a stream feeds: its callback must be signed and fresh, and the track
/// must belong to the participant it names.
pub open spec fn stream_target(
    m: StoreModel,
    signed: bool,
    recording_id: u128,
    track_sid: Seq<char>,
    participant_id: u128,
) -> Result<SegmentRowModel, Refusal> {
    if !signed {
        Err(Refusal::InvalidSignature)
    } else {
        match m.track(recording_id, track_sid) {
            Some(found) => if found.segment.participant_id == participant_id {
                Ok(found)
            } else {
                Err(Refusal::UnknownTrack)
            },
            None => Err(Refusal::UnknownTrack),
        }
    }
}

/// Whether a result holds this segment or this refusal.
pub open spec fn row_result(row: Result<SegmentRow, Refusal>) -> Result<SegmentRowModel, Refusal> {
    match row {
        Ok(r) => Ok(r@),
        Err(refusal) => Err(refusal),
    }
}

/// Finds the segment that a stream feeds.
pub fn find_stream_target(
    store: &Store,
    signed: bool,
    recording_id: u128,
    track_sid: &str,
    participant_id: u128,
) -> (row: Result<SegmentRow, Refusal>)
    requires
        store.wf(),
    ensures
        row_result(row) == stream_target(
            store@,
            signed,
            recording_id,
            track_sid@,
            participant_id,
        ),
{
    if !signed {
        return Err(Refusal::InvalidSignature);
    }
    match store.segment(recording_id, track_sid) {
        Some(row) => {
            if row.segment.participant_id == participant_id {
                Ok(row)
            } else {
                Err(Refusal::UnknownTrack)
            }
        },
        None => Err(Refusal::UnknownTrack),
    }
}

/// Admits a stream of audio.
pub fn accept_stream(
    store: &Store,
    secret: &str,
    recording_id: u128,
    track_sid: &str,
    query: &EgressQuery,
    now_seconds: u64,
) -> (row: Result<SegmentRow, Refusal>)
    requires
        store.wf(),
    ensures
        row_result(row) == stream_target(
            store@,
            callback_accepted(
                secret@,
                recording_id,
                track_sid@,
                query.participant_id,
                query.exp,
                query.sig@,
                now_seconds,
            ),
            recording_id,
            track_sid@,
            query.participant_id,
        ),
{
    let signed = verify_egress_signature(secret, recording_id, track_sid, query, now_seconds);
    find_stream_target(store, signed, recording_id, track_sid, query.participant_id)
}

/// Notes how far a stream of audio has come.
pub fn note_progress(
    store: &mut Store,
    recording_id: u128,
    track_sid: &str,
    progress: &SegmentProgress,
)
    requires
        old(store).wf(),
    ensures
        final(store).wf(),
        final(store)@ == old(store)@.with_samples(
            recording_id,
            track_sid@,
            progress.first_ns,
            progress.timeline_start,
            progress.samples,
            TrackSegmentStatus::Writing,
        ),
{
    store.update_segment_progress(
        recording_id,
        track_sid,
        progress.first_ns,
        progress.timeline_start,
        progress.samples,
        TrackSegmentStatus::Writing,
    );
}

/// Notes that a stream of audio has ended.
pub fn end_stream(store: &mut Store, recording_id: u128, track_sid: &str, end: &SegmentEnd)
    requires
        old(store).wf(),
    ensures
        final(store).wf(),
        final(store)@ == old(store)@.with_end(
            recording_id,
            track_sid@,
            end.last_ns,
            end.samples,
        ),
{
    store.close_segment(recording_id, track_sid, end.last_ns, end.samples);
}

/// Notes that a stream of audio broke. What came until then is kept: the segment is closed
/// with the samples that were received. Where no file could be opened for it (`None`) there
/// is nothing to keep, and the segment failed under the egress it was opened with.
pub fn fail_stream(store: &mut Store, row: &SegmentRow, end: Option<&SegmentEnd>)
    requires
        old(store).wf(),
    ensures
        final(store).wf(),
        final(store)@ == match end {
            Some(end) => old(store)@.with_end(
                row@.segment.recording_id,
                row@.segment.livekit_track_sid,
                end.last_ns,
                end.samples,
            ),
            None => old(store)@.with_egress(
                row@.segment.recording_id,
                row@.segment.livekit_track_sid,
                row@.egress_id,
                TrackSegmentStatus::Failed,
            ),
        },
{
    let recording_id = row.segment.recording_id;
    let track_sid = row.segment.livekit_track_sid.as_str();
    match end {
        Some(end) => {
            end_stream(store, recording_id, track_sid, end);
        },
        None => {
            let egress_id = match &row.egress_id {
                Some(id) => Some(id.as_str()),
                None => None,
            };
            store.set_egress(recording_id, track_sid, egress_id, TrackSegmentStatus::Failed);
        },
    }
}

// Views.

/// What is written down of a recording's surroundings: its room session and everyone who is
/// known.
pub fn session_snapshot(store: &Store, recording_id: u128) -> (snapshot: Result<
    (RoomSession, Vec<Participant>),
    StoreError,
>)
    requires
        store.wf(),
    ensures
        match store@.recording_room(recording_id) {
            None => snapshot is Err && snapshot->Err_0 == StoreError::Missing,
            Some(session) => {
                &&& snapshot is Ok
                &&& (snapshot->Ok_0).0 == session
                &&& sorted_by(
                    store@.participants.list(),
                    participant_keys(store@.participants.list()),
                    views((snapshot->Ok_0).1@),
                )
            },
        },
{
    match store.recording_room_session(recording_id) {
        Ok(session) => Ok((session, store.all_participants())),
        Err(e) => Err(e),
    }
}

/// Shows a recording to a participant.
pub fn recording_view(store: &Store, identity: Option<(u128, u128)>, id: u128) -> (found: Result<
    RecordingSession,
    Refusal,
>)
    requires
        store.wf(),
    ensures
        if !participates(store@, identity) {
            found is Err && found->Err_0 == Refusal::ParticipantRequired
        } else {
            match store@.recordings.get(id) {
                Some(r) => found is Ok && found->Ok_0@ == r,
                None => found is Err && found->Err_0 == Refusal::RecordingNotFound,
            }
        },
{
    if !is_participant(store, identity) {
        return Err(Refusal::ParticipantRequired);
    }
    match store.recording(id) {
        Some(recording) => Ok(recording),
        None => Err(Refusal::RecordingNotFound),
    }
}

/// The file of a participant's track, for the host.
pub fn track_file(
    store: &Store,
    identity: Option<(u128, u128)>,
    recording_id: u128,
    participant_id: u128,
) -> (path: Result<String, Refusal>)
    requires
        store.wf(),
    ensures
        if !hosts(store@, identity) {
            path is Err && path->Err_0 == Refusal::HostRequired
        } else {
            match (
                store@.recordings.get(recording_id),
                store@.participants.get(participant_id),
            ) {
                (None, _) => path is Err && path->Err_0 == Refusal::RecordingNotFound,
                (Some(_), None) => path is Err && path->Err_0 == Refusal::ParticipantNotFound,
                (Some(r), Some(p)) => path is Ok && path->Ok_0@ == below(
                    r.output_dir,
                    "tracks"@,
                    track_file_name(p.id, p.nickname),
                ),
            }
        },
{
    if !is_online_host(store, identity) {
        return Err(Refusal::HostRequired);
    }
    let recording = match store.recording(recording_id) {
        Some(recording) => recording,
        None => {
            return Err(Refusal::RecordingNotFound);
        },
    };
    match store.participant(participant_id) {
        Some(participant) => {
            let name = track_name(participant.id, participant.nickname.as_str());
            Ok(path_below(recording.output_dir.as_str(), "tracks", name.as_str()))
        },
        None => Err(Refusal::ParticipantNotFound),
    }
}

// What holds of recordings.

/// Asking twice to stop a recording stops it once: the second time it is found stopped.
pub proof fn law_stopping_is_idempotent(m: StoreModel, id: u128)
    requires
        m.recordings.has(id),
        m.wf(),
        !is_stopped(m.recordings.map[id].status),
        m.recordings.map[id].version < i64::MAX,
    ensures
        ({
            let stopping = advanced(m.recordings.map[id], RecordingStatus::Stopping);
            let after = m.with_progress(stopping);
            &&& after.recordings.get(id) == Some(stopping)
            &&& is_stopped(stopping.status)
            &&& stopping.version == m.recordings.map[id].version + 1
        }),
{
}

/// Asking twice to start a recording starts one: the second time it is found in progress.
pub proof fn law_starting_is_idempotent(
    m: StoreModel,
    id: u128,
    dir: Seq<char>,
    now: i128,
    session: RoomSession,
)
    requires
        m.wf(),
        m.active_recording() is None,
        m.with_recording(new_recording(id, dir, now), session).1 is Ok,
    ensures
        m.with_recording(new_recording(id, dir, now), session).0.active_recording() == Some(
            new_recording(id, dir, now),
        ),
{
    let r = new_recording(id, dir, now);
    let after = m.with_recording(r, session).0;
    let rows = after.recordings.list();
    assert(rows.drop_last() =~= m.recordings.list()) by {
        assert forall|i: int| 0 <= i < m.recordings.keys.len() implies rows[i]
            == m.recordings.list()[i] by {
            assert(m.recordings.keys.contains(m.recordings.keys[i]));
        }
    }
    assert(rows.last() == RecordingModel { stopped_at_utc: None, ..r });
    assert(rows.last() =~= r);
}

/// The timeline reaches as far as the recording ran and as each segment goes.
pub proof fn law_timeline_covers_every_segment(
    rows: Seq<SegmentRowModel>,
    least: int,
    i: int,
)
    requires
        0 <= i < rows.len(),
    ensures
        least <= latest_end(rows, least),
        end_of(rows[i]) <= latest_end(rows, least),
    decreases rows.len(),
{
    let shorter = rows.drop_last();
    if i < shorter.len() {
        law_timeline_covers_every_segment(shorter, least, i);
        assert(shorter[i] == rows[i]);
    } else if shorter.len() > 0 {
        law_timeline_covers_every_segment(shorter, least, 0);
    } else {
        assert(latest_end(shorter, least) == least);
    }
}

/// Whether some segments follow each other by their start.
pub open spec fn starts_in_order(list: Seq<(u64, Seq<char>)>) -> bool {
    forall|i: int, j: int| 0 <= i < j < list.len() ==> (#[trigger] list[i]).0 <= (
    #[trigger] list[j]).0
}

/// Whether segments with the same participant follow each other by their start.
spec fn grouped(rows: Seq<SegmentRowModel>) -> bool {
    forall|i: int, j: int|
        0 <= i < j < rows.len() && (#[trigger] rows[i]).segment.participant_id == (
        #[trigger] rows[j]).segment.participant_id ==> rows[i].segment.timeline_start_sample
            <= rows[j].segment.timeline_start_sample
}

proof fn lemma_sorted_is_grouped(list: Seq<SegmentRowModel>, rows: Seq<SegmentRowModel>)
    requires
        sorted_by(list, segment_keys(list), rows),
    ensures
        grouped(rows),
{
    let keys = segment_keys(list);
    let order = choose|order: Seq<int>|
        #[trigger] crate::order::in_order(keys, order) && rows == crate::order::picked(list, order);
    assert forall|i: int, j: int|
        0 <= i < j < rows.len() && (#[trigger] rows[i]).segment.participant_id == (
        #[trigger] rows[j]).segment.participant_id implies rows[i].segment.timeline_start_sample
        <= rows[j].segment.timeline_start_sample by {
        assert(rows[i] == list[order[i]] && rows[j] == list[order[j]]);
        assert(crate::order::comes_before(keys, order[i], order[j]));
        assert(keys[order[i]] == (
            rows[i].segment.participant_id,
            rows[i].segment.timeline_start_sample as i128,
        ));
        assert(keys[order[j]] == (
            rows[j].segment.participant_id,
            rows[j].segment.timeline_start_sample as i128,
        ));
    }
}

proof fn lemma_audible_in_order(rows: Seq<SegmentRowModel>, id: u128)
    requires
        grouped(rows),
    ensures
        starts_in_order(sources(audible(rows, id))),
        forall|i: int|
            0 <= i < audible(rows, id).len() ==> rows.contains(#[trigger] audible(rows, id)[i])
                && audible(rows, id)[i].segment.participant_id == id,
    decreases rows.len(),
{
    reveal(Seq::filter);
    let p = |r: SegmentRowModel|
        r.segment.participant_id == id && !(r.segment.status is Failed);
    let heard = audible(rows, id);
    if rows.len() > 0 {
        let shorter = rows.drop_last();
        let last = rows.last();
        assert(grouped(shorter)) by {
            assert forall|i: int, j: int|
                0 <= i < j < shorter.len() && (#[trigger] shorter[i]).segment.participant_id == (
                #[trigger] shorter[j]).segment.participant_id implies shorter[i].segment.timeline_start_sample
                <= shorter[j].segment.timeline_start_sample by {
                assert(shorter[i] == rows[i] && shorter[j] == rows[j]);
            }
        }
        lemma_audible_in_order(shorter, id);
        let before = audible(shorter, id);
        assert(heard == if p(last) {
            before.push(last)
        } else {
            before
        });
        assert forall|i: int| 0 <= i < heard.len() implies rows.contains(#[trigger] heard[i])
            && heard[i].segment.participant_id == id by {
            if i < before.len() {
                assert(heard[i] == before[i]);
                let k = choose|k: int| 0 <= k < shorter.len() && shorter[k] == before[i];
                assert(rows[k] == before[i]);
            } else {
                assert(rows[rows.len() - 1] == last);
            }
        }
        assert forall|i: int, j: int| 0 <= i < j < sources(heard).len() implies (
        #[trigger] sources(heard)[i]).0 <= (#[trigger] sources(heard)[j]).0 by {
            assert(sources(heard)[i].0 == heard[i].segment.timeline_start_sample);
            assert(sources(heard)[j].0 == heard[j].segment.timeline_start_sample);
            if j < before.len() {
                assert(sources(before)[i].0 <= sources(before)[j].0);
            } else {
                let k = choose|k: int| 0 <= k < shorter.len() && shorter[k] == before[i];
                assert(rows[k] == heard[i]);
                assert(rows[rows.len() - 1] == last);
                assert(heard[j] == last);
            }
        }
    }
}

/// In a plan the segments of every track follow each other by their start, and each track
/// holds what its participant said.
pub proof fn law_planned_segments_are_in_order(
    plan: FinalPlan,
    m: StoreModel,
    r: RecordingModel,
    now: i128,
    participants: Seq<ParticipantModel>,
    rows: Seq<SegmentRowModel>,
    i: int,
)
    requires
        plans(plan, m, r, now, participants, rows),
        0 <= i < plan.tracks@.len(),
    ensures
        starts_in_order(plan.tracks@[i]@.segments),
        plan.tracks@[i]@.segments == sources(audible(rows, plan.tracks@[i].participant_id)),
        plan.tracks@[i]@.segments.len() > 0,
{
    lemma_sorted_is_grouped(m.segments_of(r.id), rows);
    assert(views(plan.tracks@)[i] == plan.tracks@[i]@);
    lemma_planned_track(participants, rows, r.output_dir, i);
    lemma_audible_in_order(rows, plan.tracks@[i].participant_id);
}

proof fn lemma_planned_track(
    participants: Seq<ParticipantModel>,
    rows: Seq<SegmentRowModel>,
    dir: Seq<char>,
    i: int,
)
    requires
        0 <= i < planned_tracks(participants, rows, dir).len(),
    ensures
        ({
            let track = planned_tracks(participants, rows, dir)[i];
            &&& track.segments == sources(audible(rows, track.participant_id))
            &&& track.segments.len() > 0
        }),
    decreases participants.len(),
{
    let shorter = participants.drop_last();
    let before = planned_tracks(shorter, rows, dir);
    if i < before.len() {
        lemma_planned_track(shorter, rows, dir, i);
    }
}

/// A track gets one egress: where it has a segment already, whoever it belongs to and
/// whatever has become of it, nothing is added.
pub proof fn law_track_is_planned_once(m: StoreModel, s: SegmentModel)
    requires
        m.wf(),
        m.track(s.recording_id, s.livekit_track_sid) is Some,
        s.first_frame_at_ns == 0,
        s.timeline_start_sample == 0,
    ensures
        m.with_segment(s) == (m, Ok::<bool, StoreError>(false)),
{
}

/// What a broken stream has brought is kept: its segment is closed with the samples that
/// came, and is heard on the final track.
pub proof fn law_broken_stream_is_heard(
    m: StoreModel,
    recording_id: u128,
    track_sid: Seq<char>,
    last_ns: u64,
    samples: u64,
)
    requires
        m.wf(),
        m.track(recording_id, track_sid) is Some,
    ensures
        ({
            let before = m.track(recording_id, track_sid)->0;
            let after = m.with_end(recording_id, track_sid, last_ns, samples).track(
                recording_id,
                track_sid,
            );
            &&& after is Some
            &&& after->0.segment.status is Closed
            &&& after->0.segment.sample_count == samples
            &&& after->0.segment.pcm_path == before.segment.pcm_path
            &&& audible(seq![after->0], before.segment.participant_id) == seq![after->0]
        }),
{
    let key = m.track_key(recording_id, track_sid)->0;
    let before = m.track(recording_id, track_sid)->0;
    let ended = m.with_end(recording_id, track_sid, last_ns, samples);
    assert(row_holds(m.segments, key, recording_id, track_sid));
    assert(row_holds(ended.segments, key, recording_id, track_sid));
    let kept = ended.track_key(recording_id, track_sid)->0;
    assert(row_holds(ended.segments, kept, recording_id, track_sid));
    assert(row_holds(m.segments, kept, recording_id, track_sid));
    assert(kept == key);
    let after = ended.track(recording_id, track_sid);
    assert(after->0 == ended.segments.map[key]);
    reveal(Seq::filter);
    let rows = seq![after->0];
    assert(rows.last() == after->0);
    assert(rows.drop_last() =~= Seq::empty());
    assert(audible(rows.drop_last(), before.segment.participant_id) =~= Seq::empty());
    assert(audible(rows, before.segment.participant_id) =~= Seq::<SegmentRowModel>::empty().push(
        after->0,
    ));
    assert(audible(rows, before.segment.participant_id) =~= rows);
}

proof fn lemma_latest_end(rows: Seq<SegmentRowModel>, least: int)
    ensures
        least <= latest_end(rows, least),
        forall|i: int|
            0 <= i < rows.len() ==> ({
                let segment = (#[trigger] rows[i]).segment;
                let end = segment.timeline_start_sample + segment.sample_count;
                latest_end(rows, least) >= if end > u64::MAX {
                    u64::MAX as int
                } else {
                    end
                }
            }),
        latest_end(rows, least) == least || exists|i: int|
            0 <= i < rows.len() && ({
                let segment = (#[trigger] rows[i]).segment;
                let end = segment.timeline_start_sample + segment.sample_count;
                latest_end(rows, least) == if end > u64::MAX {
                    u64::MAX as int
                } else {
                    end
                }
            }),
    decreases rows.len(),
{
    if rows.len() > 0 {
        let shorter = rows.drop_last();
        lemma_latest_end(shorter, least);
        assert(rows[rows.len() - 1] == rows.last());
        assert forall|i: int| 0 <= i < shorter.len() implies shorter[i] == #[trigger] rows[i] by {}
        if latest_end(rows, least) != least && latest_end(rows, least) == latest_end(
            shorter,
            least,
        ) {
            let i = choose|i: int|
                0 <= i < shorter.len() && ({
                    let segment = (#[trigger] shorter[i]).segment;
                    let end = segment.timeline_start_sample + segment.sample_count;
                    latest_end(shorter, least) == if end > u64::MAX {
                        u64::MAX as int
                    } else {
                        end
                    }
                });
            assert(shorter[i] == rows[i]);
        }
    }
}

/// Every track is exactly as long as it must be: as long as the recording ran, at 48000
/// samples a second, or to the end of that of its segments that reaches farthest, where that
/// is more. A segment reaches as many samples behind its start as it holds.
pub proof fn law_timeline_is_as_long_as_it_must_be(
    plan: FinalPlan,
    m: StoreModel,
    r: RecordingModel,
    now: i128,
    participants: Seq<ParticipantModel>,
    rows: Seq<SegmentRowModel>,
)
    requires
        m.wf(),
        plans(plan, m, r, now, participants, rows),
    ensures
        ({
            let ran = if 0 <= now - r.started_at_utc <= i64::MAX {
                now - r.started_at_utc
            } else {
                0
            };
            let runtime = (ran * 48_000 + 500_000_000) / 1_000_000_000;
            &&& runtime <= plan.timeline_samples
            &&& forall|k: u128|
                m.segments.has(k) && (#[trigger] m.segments.map[k]).segment.recording_id == r.id
                    ==> ({
                    let segment = m.segments.map[k].segment;
                    let end = segment.timeline_start_sample + segment.sample_count;
                    plan.timeline_samples >= if end > u64::MAX {
                        u64::MAX as int
                    } else {
                        end
                    }
                })
            &&& plan.timeline_samples == runtime || exists|k: u128|
                m.segments.has(k) && (#[trigger] m.segments.map[k]).segment.recording_id == r.id
                    && ({
                    let segment = m.segments.map[k].segment;
                    let end = segment.timeline_start_sample + segment.sample_count;
                    plan.timeline_samples == if end > u64::MAX {
                        u64::MAX as int
                    } else {
                        end
                    }
                })
        }),
{
    let runtime = timeline_sample(elapsed_between(r.started_at_utc as int, now as int));
    law_segments_are_all_listed(m, r.id, rows);
    lemma_latest_end(rows, runtime);
    assert forall|k: u128|
        m.segments.has(k) && (#[trigger] m.segments.map[k]).segment.recording_id
            == r.id implies ({
        let segment = m.segments.map[k].segment;
        let end = segment.timeline_start_sample + segment.sample_count;
        plan.timeline_samples >= if end > u64::MAX {
            u64::MAX as int
        } else {
            end
        }
    }) by {
        let i = choose|i: int| 0 <= i < rows.len() && rows[i] == m.segments.map[k];
        assert(rows[i].segment == m.segments.map[k].segment);
    }
    if plan.timeline_samples != runtime {
        let i = choose|i: int|
            0 <= i < rows.len() && ({
                let segment = (#[trigger] rows[i]).segment;
                let end = segment.timeline_start_sample + segment.sample_count;
                latest_end(rows, runtime) == if end > u64::MAX {
                    u64::MAX as int
                } else {
                    end
                }
            });
        let k = rows[i].segment.id;
        assert(m.segments.has(k) && m.segments.map[k].segment.recording_id == r.id);
    }
}

proof fn lemma_egress_ids(rows: Seq<SegmentRowModel>)
    ensures
        forall|i: int|
            0 <= i < rows.len() && (#[trigger] rows[i]).egress_id is Some ==> egress_ids(
                rows,
            ).contains(rows[i].egress_id->0),
        forall|j: int|
            0 <= j < egress_ids(rows).len() ==> exists|i: int|
                0 <= i < rows.len() && (#[trigger] rows[i]).egress_id == Some(
                    #[trigger] egress_ids(rows)[j],
                ),
        egress_ids(rows).len() == rows.filter(|r: SegmentRowModel| r.egress_id is Some).len(),
    decreases rows.len(),
{
    reveal(Seq::filter);
    if rows.len() > 0 {
        let shorter = rows.drop_last();
        let before = egress_ids(shorter);
        let ids = egress_ids(rows);
        lemma_egress_ids(shorter);
        assert(rows[rows.len() - 1] == rows.last());
        assert forall|i: int|
            0 <= i < rows.len() && (#[trigger] rows[i]).egress_id is Some implies ids.contains(
            rows[i].egress_id->0,
        ) by {
            if i < shorter.len() {
                assert(shorter[i] == rows[i]);
                let j = choose|j: int| 0 <= j < before.len() && before[j] == rows[i].egress_id->0;
                assert(ids[j] == rows[i].egress_id->0);
            } else {
                assert(ids[ids.len() - 1] == rows[i].egress_id->0);
            }
        }
        assert forall|j: int| 0 <= j < ids.len() implies exists|i: int|
            0 <= i < rows.len() && (#[trigger] rows[i]).egress_id == Some(#[trigger] ids[j]) by {
            if j < before.len() {
                assert(ids[j] == before[j]);
                let i = choose|i: int|
                    0 <= i < shorter.len() && (#[trigger] shorter[i]).egress_id == Some(before[j]);
                assert(rows[i] == shorter[i]);
            } else {
                assert(rows[rows.len() - 1].egress_id == Some(ids[j]));
            }
        }
    }
}

/// To stop a recording is to stop every egress it has: that of each of its segments that has
/// one, whatever the status of the segment, and no egress of another recording.
pub proof fn law_every_egress_is_stopped(
    m: StoreModel,
    id: u128,
    rows: Seq<SegmentRowModel>,
    ids: Seq<Seq<char>>,
)
    requires
        m.wf(),
        sorted_by(m.segments_of(id), segment_keys(m.segments_of(id)), rows),
        ids == egress_ids(rows),
    ensures
        forall|k: u128|
            m.segments.has(k) && (#[trigger] m.segments.map[k]).segment.recording_id == id
                && m.segments.map[k].egress_id is Some ==> ids.contains(
                m.segments.map[k].egress_id->0,
            ),
        forall|egress_id: Seq<char>| #[trigger]
            ids.contains(egress_id) ==> exists|k: u128|
                m.segments.has(k) && (#[trigger] m.segments.map[k]).segment.recording_id == id
                    && m.segments.map[k].egress_id == Some(egress_id),
        ids.len() == m.segments.count(
            |r: SegmentRowModel| r.segment.recording_id == id && r.egress_id is Some,
        ),
{
    law_segments_are_all_listed(m, id, rows);
    lemma_egress_ids(rows);
    assert forall|k: u128|
        m.segments.has(k) && (#[trigger] m.segments.map[k]).segment.recording_id == id
            && m.segments.map[k].egress_id is Some implies ids.contains(
        m.segments.map[k].egress_id->0,
    ) by {
        let i = choose|i: int| 0 <= i < rows.len() && rows[i] == m.segments.map[k];
        assert(rows[i].egress_id is Some);
    }
    assert forall|egress_id: Seq<char>| #[trigger] ids.contains(egress_id) implies exists|k: u128|
        m.segments.has(k) && (#[trigger] m.segments.map[k]).segment.recording_id == id
            && m.segments.map[k].egress_id == Some(egress_id) by {
        let j = choose|j: int| 0 <= j < ids.len() && ids[j] == egress_id;
        let i = choose|i: int|
            0 <= i < rows.len() && (#[trigger] rows[i]).egress_id == Some(ids[j]);
        let k = rows[i].segment.id;
        assert(m.segments.has(k) && m.segments.map[k] == rows[i]);
    }
    let p = |r: SegmentRowModel| r.egress_id is Some;
    let list = m.segments_of(id);
    crate::order::lemma_sorted_count(list, segment_keys(list), rows, p);
    lemma_filter_twice(
        m.segments.list(),
        |r: SegmentRowModel| r.segment.recording_id == id,
        p,
        |r: SegmentRowModel| r.segment.recording_id == id && r.egress_id is Some,
    );
}

proof fn lemma_filter_twice(
    list: Seq<SegmentRowModel>,
    p: spec_fn(SegmentRowModel) -> bool,
    q: spec_fn(SegmentRowModel) -> bool,
    both: spec_fn(SegmentRowModel) -> bool,
)
    requires
        forall|r: SegmentRowModel| #[trigger] both(r) == (p(r) && q(r)),
    ensures
        list.filter(p).filter(q).len() == list.filter(both).len(),
    decreases list.len(),
{
    reveal(Seq::filter);
    if list.len() > 0 {
        let shorter = list.drop_last();
        lemma_filter_twice(shorter, p, q, both);
        assert(both(list.last()) == (p(list.last()) && q(list.last())));
        if p(list.last()) {
            let kept = shorter.filter(p);
            assert(list.filter(p) == kept.push(list.last()));
            assert(list.filter(p).drop_last() =~= kept);
        }
    }
}

/// Whose track a planned one is.
proof fn lemma_track_owner(
    participants: Seq<ParticipantModel>,
    rows: Seq<SegmentRowModel>,
    dir: Seq<char>,
    i: int,
) -> (p: int)
    requires
        0 <= i < planned_tracks(participants, rows, dir).len(),
    ensures
        0 <= p < participants.len(),
        planned_tracks(participants, rows, dir)[i] == planned(participants[p], rows, dir),
        audible(rows, participants[p].id).len() > 0,
    decreases participants.len(),
{
    let shorter = participants.drop_last();
    let before = planned_tracks(shorter, rows, dir);
    if i < before.len() {
        let p = lemma_track_owner(shorter, rows, dir, i);
        assert(participants[p] == shorter[p]);
        p
    } else {
        participants.len() - 1
    }
}

/// Where the track of a participant who was heard stands.
proof fn lemma_owners_track(
    participants: Seq<ParticipantModel>,
    rows: Seq<SegmentRowModel>,
    dir: Seq<char>,
    p: int,
) -> (i: int)
    requires
        0 <= p < participants.len(),
        audible(rows, participants[p].id).len() > 0,
    ensures
        0 <= i < planned_tracks(participants, rows, dir).len(),
        planned_tracks(participants, rows, dir)[i] == planned(participants[p], rows, dir),
    decreases participants.len(),
{
    let shorter = participants.drop_last();
    let before = planned_tracks(shorter, rows, dir);
    if p < shorter.len() {
        assert(participants[p] == shorter[p]);
        lemma_owners_track(shorter, rows, dir, p)
    } else {
        before.len() as int
    }
}

/// Two tracks follow each other as their owners do.
proof fn lemma_owners_in_order(
    participants: Seq<ParticipantModel>,
    rows: Seq<SegmentRowModel>,
    dir: Seq<char>,
    i: int,
    j: int,
) -> (owners: (int, int))
    requires
        0 <= i < j < planned_tracks(participants, rows, dir).len(),
    ensures
        0 <= owners.0 < owners.1 < participants.len(),
        planned_tracks(participants, rows, dir)[i] == planned(participants[owners.0], rows, dir),
        planned_tracks(participants, rows, dir)[j] == planned(participants[owners.1], rows, dir),
    decreases participants.len(),
{
    let shorter = participants.drop_last();
    let before = planned_tracks(shorter, rows, dir);
    if j < before.len() {
        let owners = lemma_owners_in_order(shorter, rows, dir, i, j);
        assert(participants[owners.0] == shorter[owners.0]);
        assert(participants[owners.1] == shorter[owners.1]);
        owners
    } else {
        let p = lemma_track_owner(shorter, rows, dir, i);
        assert(participants[p] == shorter[p]);
        (p, participants.len() - 1)
    }
}

/// Whoever was heard has a track: where the recording has a segment that did not fail, of a
/// participant of whom the server knows, the plan has a track of that participant which holds
/// the start and the file of the segment.
pub proof fn law_everyone_heard_has_a_track(
    plan: FinalPlan,
    m: StoreModel,
    r: RecordingModel,
    now: i128,
    participants: Seq<ParticipantModel>,
    rows: Seq<SegmentRowModel>,
    k: u128,
)
    requires
        m.wf(),
        plans(plan, m, r, now, participants, rows),
        m.segments.has(k),
        m.segments.map[k].segment.recording_id == r.id,
        !(m.segments.map[k].segment.status is Failed),
        m.participants.has(m.segments.map[k].segment.participant_id),
    ensures
        exists|i: int|
            0 <= i < plan.tracks@.len() && (#[trigger] plan.tracks@[i])@.participant_id
                == m.segments.map[k].segment.participant_id
                && plan.tracks@[i]@.segments.contains(
                (
                    m.segments.map[k].segment.timeline_start_sample,
                    m.segments.map[k].segment.pcm_path,
                ),
            ),
{
    let row = m.segments.map[k];
    let id = row.segment.participant_id;
    let heard = audible(rows, id);
    let q = |r: SegmentRowModel| r.segment.participant_id == id && !(r.segment.status is Failed);
    law_segments_are_all_listed(m, r.id, rows);
    law_participants_are_all_listed(m, participants);
    assert(rows.contains(row));
    let at = choose|at: int| 0 <= at < rows.len() && rows[at] == row;
    assert(q(rows[at]));
    rows.lemma_filter_contains(q, at);
    assert(heard.contains(row));
    let place = choose|place: int| 0 <= place < heard.len() && heard[place] == row;
    assert(sources(heard)[place] == (row.segment.timeline_start_sample, row.segment.pcm_path));
    assert(participants.contains(m.participants.map[id]));
    let p = choose|p: int|
        0 <= p < participants.len() && participants[p] == m.participants.map[id];
    assert(m.participants.map[id].id == id);
    let i = lemma_owners_track(participants, rows, r.output_dir, p);
    assert(views(plan.tracks@)[i] == plan.tracks@[i]@);
}

/// A track holds nothing but what its participant said: each start and file on it are those of
/// a segment that the recording has of that participant and that did not fail, and there are
/// as many of them as of such segments. It is a track of somebody of whom the server knows,
/// under their nickname.
pub proof fn law_track_holds_what_its_participant_said(
    plan: FinalPlan,
    m: StoreModel,
    r: RecordingModel,
    now: i128,
    participants: Seq<ParticipantModel>,
    rows: Seq<SegmentRowModel>,
    i: int,
    s: int,
)
    requires
        m.wf(),
        plans(plan, m, r, now, participants, rows),
        0 <= i < plan.tracks@.len(),
        0 <= s < plan.tracks@[i]@.segments.len(),
    ensures
        ({
            let track = plan.tracks@[i]@;
            let id = track.participant_id;
            &&& m.participants.has(id)
            &&& track.nickname == m.participants.map[id].nickname
            &&& track.segments.len() == m.segments.count(
                |row: SegmentRowModel|
                    row.segment.recording_id == r.id && row.segment.participant_id == id && !(
                    row.segment.status is Failed),
            )
            &&& exists|k: u128|
                m.segments.has(k) && (#[trigger] m.segments.map[k]).segment.recording_id == r.id
                    && !(m.segments.map[k].segment.status is Failed)
                    && m.segments.map[k].segment.participant_id == id
                    && m.segments.map[k].segment.timeline_start_sample == track.segments[s].0
                    && m.segments.map[k].segment.pcm_path == track.segments[s].1
        }),
{
    let track = plan.tracks@[i]@;
    let id = track.participant_id;
    assert(views(plan.tracks@)[i] == track);
    law_segments_are_all_listed(m, r.id, rows);
    law_participants_are_all_listed(m, participants);
    let p = lemma_track_owner(participants, rows, r.output_dir, i);
    assert(m.participants.map[participants[p].id] == participants[p]);
    let heard = audible(rows, id);
    let row = heard[s];
    assert(sources(heard)[s] == (row.segment.timeline_start_sample, row.segment.pcm_path));
    assert(heard.contains(row));
    let q = |r: SegmentRowModel| r.segment.participant_id == id && !(r.segment.status is Failed);
    rows.lemma_filter_pred(q, s);
    rows.lemma_filter_contains_rev(q, row);
    let at = choose|at: int| 0 <= at < rows.len() && rows[at] == row;
    let k = rows[at].segment.id;
    assert(m.segments.has(k) && m.segments.map[k] == row);
    let list = m.segments_of(r.id);
    crate::order::lemma_sorted_count(list, segment_keys(list), rows, q);
    lemma_filter_twice(
        m.segments.list(),
        |row: SegmentRowModel| row.segment.recording_id == r.id,
        q,
        |row: SegmentRowModel|
            row.segment.recording_id == r.id && row.segment.participant_id == id && !(
            row.segment.status is Failed),
    );
}

/// Nobody has two tracks, and the tracks follow each other by the day of arrival.
pub proof fn law_nobody_has_two_tracks(
    plan: FinalPlan,
    m: StoreModel,
    r: RecordingModel,
    now: i128,
    participants: Seq<ParticipantModel>,
    rows: Seq<SegmentRowModel>,
    i: int,
    j: int,
)
    requires
        m.wf(),
        plans(plan, m, r, now, participants, rows),
        0 <= i < j < plan.tracks@.len(),
    ensures
        plan.tracks@[i]@.participant_id != plan.tracks@[j]@.participant_id,
        m.participants.map[plan.tracks@[i]@.participant_id].created_at
            <= m.participants.map[plan.tracks@[j]@.participant_id].created_at,
{
    assert(views(plan.tracks@)[i] == plan.tracks@[i]@);
    assert(views(plan.tracks@)[j] == plan.tracks@[j]@);
    law_participants_are_all_listed(m, participants);
    let (a, b) = lemma_owners_in_order(participants, rows, r.output_dir, i, j);
    assert(m.participants.map[participants[a].id] == participants[a]);
    assert(m.participants.map[participants[b].id] == participants[b]);
}

/// A recording begins now, with nothing stopped, at 48000 samples a second in one channel of
/// 16-bit samples, in the directory it was given, as its first version.
pub proof fn law_how_a_recording_begins(id: u128, dir: Seq<char>, now: i128)
    ensures
        ({
            let r = new_recording(id, dir, now);
            &&& r.id == id
            &&& r.status is Starting
            &&& r.started_at_utc == now
            &&& r.stopped_at_utc is None
            &&& r.target_sample_rate == 48_000
            &&& r.target_channels == 1
            &&& r.target_sample_format == "s16le"@
            &&& r.output_dir == dir
            &&& r.version == 1
        }),
{
}

/// With every step a recording has the next version and another status, and is otherwise as it
/// was; with the last one it is complete and has an end.
pub proof fn law_how_a_recording_moves_on(r: RecordingModel, status: RecordingStatus, now: i128)
    requires
        r.version < i64::MAX,
    ensures
        ({
            let next = advanced(r, status);
            let done = completed_at(r, now);
            &&& next.version == r.version + 1
            &&& next.status == status
            &&& next == (RecordingModel { version: next.version, status, ..r })
            &&& done.version == r.version + 1
            &&& done.status is Completed
            &&& done.stopped_at_utc == Some(now)
            &&& done == (RecordingModel {
                version: done.version,
                status: RecordingStatus::Completed,
                stopped_at_utc: Some(now),
                ..r
            })
        }),
{
}

/// The segments of a participant are counted within one recording, whatever has become of them.
pub proof fn law_segments_of_a_participant_are_counted(
    m: StoreModel,
    recording_id: u128,
    participant_id: u128,
)
    requires
        m.wf(),
    ensures
        segment_count(m, recording_id, participant_id) == Set::new(
            |k: u128|
                m.segments.has(k) && m.segments.map[k].segment.recording_id == recording_id
                    && m.segments.map[k].segment.participant_id == participant_id,
        ).len(),
{
    let both = |r: SegmentRowModel|
        r.segment.recording_id == recording_id && r.segment.participant_id == participant_id;
    lemma_filter_twice(
        m.segments.list(),
        |r: SegmentRowModel| r.segment.recording_id == recording_id,
        |r: SegmentRowModel| r.segment.participant_id == participant_id,
        both,
    );
    lemma_count_is_cardinality(m.segments, both);
    assert(Set::new(|k: u128| m.segments.has(k) && both(m.segments.map[k])) =~= Set::new(
        |k: u128|
            m.segments.has(k) && m.segments.map[k].segment.recording_id == recording_id
                && m.segments.map[k].segment.participant_id == participant_id,
    ));
}

/// A segment is opened for the recording, the participant and the track it is asked for, under
/// its number, without audio and without a place; its file lies below the directory of the
/// recording, among those of the participant.
pub proof fn law_how_a_segment_begins(
    id: u128,
    r: RecordingModel,
    participant_id: u128,
    track_sid: Seq<char>,
    index: nat,
)
    requires
        index <= u32::MAX,
    ensures
        ({
            let s = new_segment(id, r, participant_id, track_sid, index);
            &&& s.id == id
            &&& s.recording_id == r.id
            &&& s.participant_id == participant_id
            &&& s.livekit_track_sid == track_sid
            &&& s.segment_index == index
            &&& s.first_frame_at_ns == 0
            &&& s.last_frame_at_ns is None
            &&& s.timeline_start_sample == 0
            &&& s.sample_count == 0
            &&& s.status is Opening
            &&& s.pcm_path == joined(
                joined(
                    joined(r.output_dir, "segments"@),
                    "p_"@ + hyphenated_text(participant_id),
                ),
                padded_decimal(index, 4) + "_"@ + safe_track_id_of(track_sid) + ".pcm"@,
            )
        }),
{
}

proof fn lemma_same_component(base: Seq<char>, first: Seq<char>, second: Seq<char>)
    requires
        first.len() > 0,
        second.len() > 0,
        first[0] != '/',
        second[0] != '/',
        joined(base, first) == joined(base, second),
    ensures
        first == second,
{
    let path = joined(base, first);
    law_joined_paths(base, first);
    law_joined_paths(base, second);
    assert(path.skip(path.len() - first.len()) == first);
    assert(path.skip(path.len() - second.len()) == second);
}

proof fn lemma_padded_digits(index: nat)
    ensures
        padded_decimal(index, 4).len() > 0,
        forall|i: int|
            0 <= i < padded_decimal(index, 4).len() ==> '0' <= #[trigger] padded_decimal(
                index,
                4,
            )[i] <= '9',
{
    law_decimal_text_stands_for_the_number(index);
    let text = decimal_text(index);
    let padded = padded_decimal(index, 4);
    assert forall|i: int| 0 <= i < padded.len() implies '0' <= #[trigger] padded[i] <= '9' by {
        let zeros = padded.len() - text.len();
        if i >= zeros {
            assert(padded[i] == text[i - zeros]);
        }
    }
}

/// No two segments of a participant share a file: the files of two that do have the same
/// number and, in safe characters, the same track.
pub proof fn law_no_two_segments_share_a_file(
    r: RecordingModel,
    participant_id: u128,
    id: u128,
    track_sid: Seq<char>,
    index: nat,
    other_id: u128,
    other_track: Seq<char>,
    other_index: nat,
)
    requires
        new_segment(id, r, participant_id, track_sid, index).pcm_path == new_segment(
            other_id,
            r,
            participant_id,
            other_track,
            other_index,
        ).pcm_path,
    ensures
        index == other_index,
        safe_track_id_of(track_sid) == safe_track_id_of(other_track),
{
    reveal_strlit("_");
    reveal_strlit(".pcm");
    let a = padded_decimal(index, 4);
    let b = padded_decimal(other_index, 4);
    let first = a + "_"@ + safe_track_id_of(track_sid) + ".pcm"@;
    let second = b + "_"@ + safe_track_id_of(other_track) + ".pcm"@;
    lemma_padded_digits(index);
    lemma_padded_digits(other_index);
    assert(first[0] == a[0] && second[0] == b[0]);
    lemma_same_component(segment_path(r.output_dir, participant_id), first, second);
    assert(first[a.len() as int] == '_');
    assert(second[b.len() as int] == '_');
    if a.len() < b.len() {
        assert(second[a.len() as int] == b[a.len() as int]);
    }
    if b.len() < a.len() {
        assert(first[b.len() as int] == a[b.len() as int]);
    }
    assert(a =~= first.take(a.len() as int));
    assert(b =~= second.take(b.len() as int));
    law_padded_decimal_stands_for_the_number(index, 4);
    law_padded_decimal_stands_for_the_number(other_index, 4);
    let n = first.len() as int;
    assert(safe_track_id_of(track_sid) =~= first.subrange(a.len() as int + 1, n - 4));
    assert(safe_track_id_of(other_track) =~= second.subrange(b.len() as int + 1, n - 4));
}

/// No two participants share a track file, whatever their nicknames: the name of the file holds
/// the identifier.
pub proof fn law_no_two_participants_share_a_file(
    id: u128,
    nickname: Seq<char>,
    other: u128,
    other_nickname: Seq<char>,
)
    requires
        track_file_name(id, nickname) == track_file_name(other, other_nickname),
    ensures
        hyphenated_text(id) == hyphenated_text(other),
        safe_filename_of(nickname) == safe_filename_of(other_nickname),
{
    reveal_strlit("p_");
    reveal_strlit("_");
    reveal_strlit(".wav");
    crate::ids::lemma_hyphenated_chars(id);
    crate::ids::lemma_hyphenated_chars(other);
    let name = track_file_name(id, nickname);
    let n = name.len() as int;
    assert(hyphenated_text(id) =~= name.subrange(2, 38));
    assert(hyphenated_text(other) =~= name.subrange(2, 38));
    assert(safe_filename_of(nickname) =~= name.subrange(39, n - 4));
    assert(safe_filename_of(other_nickname) =~= name.subrange(39, n - 4));
}

/// The track of a participant is written under `tmp` and then kept under `tracks`, in the
/// directory of the recording and under the same name; the manifest gives that name.
pub proof fn law_where_a_track_is_written(
    p: ParticipantModel,
    rows: Seq<SegmentRowModel>,
    dir: Seq<char>,
)
    ensures
        ({
            let name = "p_"@ + hyphenated_text(p.id) + "_"@ + safe_filename_of(p.nickname)
                + ".wav"@;
            let track = planned(p, rows, dir);
            &&& track.participant_id == p.id
            &&& track.nickname == p.nickname
            &&& track.final_file == "tracks/"@ + name
            &&& track.output == joined(joined(dir, "tracks"@), name)
            &&& track.tmp == joined(joined(dir, "tmp"@), name + ".tmp"@)
            &&& track.output == below(dir, "tracks"@, track_file_name(p.id, p.nickname))
        }),
{
}

/// A recording lies below the root, under its own identifier.
pub proof fn law_where_a_recording_lies(root: Seq<char>, id: u128)
    ensures
        recording_path(root, id) == joined(root, "rec_"@ + hyphenated_text(id)),
{
}

/// A stream feeds the segment of its track if it was let in and the segment is that of the
/// participant it names; one that was not let in is told so, and any other that there is no
/// such track.
pub proof fn law_which_segment_a_stream_feeds(
    m: StoreModel,
    signed: bool,
    recording_id: u128,
    track_sid: Seq<char>,
    participant_id: u128,
    k: u128,
)
    requires
        m.wf(),
    ensures
        ({
            let target = stream_target(m, signed, recording_id, track_sid, participant_id);
            let meant = m.segments.has(k) && m.segments.map[k].segment.recording_id == recording_id
                && m.segments.map[k].segment.livekit_track_sid == track_sid
                && m.segments.map[k].segment.participant_id == participant_id;
            &&& !signed <==> target is Err && target->Err_0 is InvalidSignature
            &&& signed && meant ==> target == Ok::<SegmentRowModel, Refusal>(m.segments.map[k])
            &&& target is Ok ==> {
                let segment = target->Ok_0.segment;
                &&& m.segments.get(segment.id) == Some(target->Ok_0)
                &&& segment.recording_id == recording_id
                &&& segment.livekit_track_sid == track_sid
                &&& segment.participant_id == participant_id
            }
            &&& signed && target is Err ==> target->Err_0 is UnknownTrack
        }),
{
    law_track_is_found(m, recording_id, track_sid, k);
}

/// The streams of a stopped recording are looked at every 100 ms, as long as one is open and
/// they were not waited for during 10 seconds; a recording is started with 256 MiB to spare.
pub proof fn law_patience_and_space(waited_ms: u64, available_bytes: u64)
    ensures
        waited_ms < STREAM_PATIENCE_MS <==> waited_ms < 10 * 1000,
        waited_ms + STREAM_POLL_MS == waited_ms + 100,
        available_bytes < MIN_FREE_BYTES <==> available_bytes < 256 * 1024 * 1024,
{
}

} // verus!
