//! Participants, connections, room sessions, recordings and track segments.

use vstd::prelude::*;

verus! {

/// What a participant is in the current room session.
#[derive(Clone, Copy, Debug, PartialEq, Eq, Structural)]
pub enum ParticipantRole {
    Host,
    Participant,
}

/// How far a recording has come.
#[derive(Clone, Copy, Debug, PartialEq, Eq, Structural)]
pub enum RecordingStatus {
    Starting,
    Recording,
    Stopping,
    Completed,
    Failed,
}

/// How far a track segment has come.
#[derive(Clone, Copy, Debug, PartialEq, Eq, Structural)]
pub enum TrackSegmentStatus {
    Opening,
    Writing,
    Closed,
    Failed,
}

/// The state of a participant's connection.
#[derive(Clone, Copy, Debug, PartialEq, Eq, Structural)]
pub enum ConnectionState {
    Connecting,
    Online,
    Reconnecting,
    Left,
    Offline,
}

/// What an optional text holds.
pub open spec fn text_of(text: Option<String>) -> Option<Seq<char>> {
    match text {
        Some(t) => Some(t@),
        None => None,
    }
}

/// A copy of an optional text.
pub fn clone_text(text: &Option<String>) -> (copy: Option<String>)
    ensures
        text_of(copy) == text_of(*text),
{
    match text {
        Some(t) => Some(t.clone()),
        None => None,
    }
}

/// A person known to the server.
#[derive(Debug)]
pub struct Participant {
    pub id: u128,
    pub livekit_identity: String,
    pub nickname: String,
    pub role: ParticipantRole,
    pub created_at: i128,
    pub last_seen_at: i128,
}

/// What a participant record holds.
#[verifier::ext_equal]
pub struct ParticipantModel {
    pub id: u128,
    pub livekit_identity: Seq<char>,
    pub nickname: Seq<char>,
    pub role: ParticipantRole,
    pub created_at: i128,
    pub last_seen_at: i128,
}

impl View for Participant {
    type V = ParticipantModel;

    open spec fn view(&self) -> ParticipantModel {
        ParticipantModel {
            id: self.id,
            livekit_identity: self.livekit_identity@,
            nickname: self.nickname@,
            role: self.role,
            created_at: self.created_at,
            last_seen_at: self.last_seen_at,
        }
    }
}

impl Clone for Participant {
    fn clone(&self) -> (copy: Participant)
        ensures
            copy@ == self@,
    {
        Participant {
            id: self.id,
            livekit_identity: self.livekit_identity.clone(),
            nickname: self.nickname.clone(),
            role: self.role,
            created_at: self.created_at,
            last_seen_at: self.last_seen_at,
        }
    }
}

/// A participant's connection; `generation` tells it from earlier ones.
#[derive(Debug)]
pub struct Connection {
    pub generation: u128,
    pub livekit_participant_sid: Option<String>,
    pub state: ConnectionState,
    pub reconnect_deadline: Option<i128>,
    pub changed_at: i128,
}

/// What a connection record holds.
#[verifier::ext_equal]
pub struct ConnectionModel {
    pub generation: u128,
    pub livekit_participant_sid: Option<Seq<char>>,
    pub state: ConnectionState,
    pub reconnect_deadline: Option<i128>,
    pub changed_at: i128,
}

impl View for Connection {
    type V = ConnectionModel;

    open spec fn view(&self) -> ConnectionModel {
        ConnectionModel {
            generation: self.generation,
            livekit_participant_sid: text_of(self.livekit_participant_sid),
            state: self.state,
            reconnect_deadline: self.reconnect_deadline,
            changed_at: self.changed_at,
        }
    }
}

impl Clone for Connection {
    fn clone(&self) -> (copy: Connection)
        ensures
            copy@ == self@,
    {
        Connection {
            generation: self.generation,
            livekit_participant_sid: clone_text(&self.livekit_participant_sid),
            state: self.state,
            reconnect_deadline: self.reconnect_deadline,
            changed_at: self.changed_at,
        }
    }
}

/// The hash of the token with which an identity is resumed.
#[derive(Debug)]
pub struct Credential {
    pub resume_token_hash: String,
    pub created_at: i128,
    pub rotated_at: i128,
}

/// What a credential record holds.
#[verifier::ext_equal]
pub struct CredentialModel {
    pub resume_token_hash: Seq<char>,
    pub created_at: i128,
    pub rotated_at: i128,
}

impl View for Credential {
    type V = CredentialModel;

    open spec fn view(&self) -> CredentialModel {
        CredentialModel {
            resume_token_hash: self.resume_token_hash@,
            created_at: self.created_at,
            rotated_at: self.rotated_at,
        }
    }
}

impl Clone for Credential {
    fn clone(&self) -> (copy: Credential)
        ensures
            copy@ == self@,
    {
        Credential {
            resume_token_hash: self.resume_token_hash.clone(),
            created_at: self.created_at,
            rotated_at: self.rotated_at,
        }
    }
}

/// One generation of the room, with its host once there is one.
#[derive(Clone, Copy, Debug, PartialEq, Eq, Structural)]
pub struct RoomSession {
    pub id: u128,
    pub generation: i64,
    pub host_participant_id: Option<u128>,
}

/// A room session as it is kept.
#[derive(Clone, Copy, Debug)]
pub struct SessionRow {
    pub session: RoomSession,
    pub active: bool,
    pub opened_at: i128,
    pub closed_at: Option<i128>,
}

impl View for SessionRow {
    type V = SessionRow;

    open spec fn view(&self) -> SessionRow {
        *self
    }
}

/// The room session in which a recording was started.
#[derive(Clone, Copy, Debug)]
pub struct RecordingRoom {
    pub room_session_id: u128,
    pub room_generation: i64,
}

impl View for RecordingRoom {
    type V = RecordingRoom;

    open spec fn view(&self) -> RecordingRoom {
        *self
    }
}

/// A recording.
#[derive(Debug)]
pub struct RecordingSession {
    pub id: u128,
    pub status: RecordingStatus,
    pub started_at_utc: i128,
    pub stopped_at_utc: Option<i128>,
    pub target_sample_rate: u32,
    pub target_channels: u16,
    pub target_sample_format: String,
    pub output_dir: String,
    pub version: i64,
}

/// What a recording record holds.
#[verifier::ext_equal]
pub struct RecordingModel {
    pub id: u128,
    pub status: RecordingStatus,
    pub started_at_utc: i128,
    pub stopped_at_utc: Option<i128>,
    pub target_sample_rate: u32,
    pub target_channels: u16,
    pub target_sample_format: Seq<char>,
    pub output_dir: Seq<char>,
    pub version: i64,
}

impl View for RecordingSession {
    type V = RecordingModel;

    open spec fn view(&self) -> RecordingModel {
        RecordingModel {
            id: self.id,
            status: self.status,
            started_at_utc: self.started_at_utc,
            stopped_at_utc: self.stopped_at_utc,
            target_sample_rate: self.target_sample_rate,
            target_channels: self.target_channels,
            target_sample_format: self.target_sample_format@,
            output_dir: self.output_dir@,
            version: self.version,
        }
    }
}

impl Clone for RecordingSession {
    fn clone(&self) -> (copy: RecordingSession)
        ensures
            copy@ == self@,
    {
        RecordingSession {
            id: self.id,
            status: self.status,
            started_at_utc: self.started_at_utc,
            stopped_at_utc: self.stopped_at_utc,
            target_sample_rate: self.target_sample_rate,
            target_channels: self.target_channels,
            target_sample_format: self.target_sample_format.clone(),
            output_dir: self.output_dir.clone(),
            version: self.version,
        }
    }
}

/// The audio of one published track within a recording.
#[derive(Debug)]
pub struct TrackSegment {
    pub id: u128,
    pub recording_id: u128,
    pub participant_id: u128,
    pub livekit_track_sid: String,
    pub segment_index: u32,
    pub first_frame_at_ns: u64,
    pub last_frame_at_ns: Option<u64>,
    pub timeline_start_sample: u64,
    pub sample_count: u64,
    pub pcm_path: String,
    pub status: TrackSegmentStatus,
}

/// What a segment record holds.
#[verifier::ext_equal]
pub struct SegmentModel {
    pub id: u128,
    pub recording_id: u128,
    pub participant_id: u128,
    pub livekit_track_sid: Seq<char>,
    pub segment_index: u32,
    pub first_frame_at_ns: u64,
    pub last_frame_at_ns: Option<u64>,
    pub timeline_start_sample: u64,
    pub sample_count: u64,
    pub pcm_path: Seq<char>,
    pub status: TrackSegmentStatus,
}

impl View for TrackSegment {
    type V = SegmentModel;

    open spec fn view(&self) -> SegmentModel {
        SegmentModel {
            id: self.id,
            recording_id: self.recording_id,
            participant_id: self.participant_id,
            livekit_track_sid: self.livekit_track_sid@,
            segment_index: self.segment_index,
            first_frame_at_ns: self.first_frame_at_ns,
            last_frame_at_ns: self.last_frame_at_ns,
            timeline_start_sample: self.timeline_start_sample,
            sample_count: self.sample_count,
            pcm_path: self.pcm_path@,
            status: self.status,
        }
    }
}

impl Clone for TrackSegment {
    fn clone(&self) -> (copy: TrackSegment)
        ensures
            copy@ == self@,
    {
        TrackSegment {
            id: self.id,
            recording_id: self.recording_id,
            participant_id: self.participant_id,
            livekit_track_sid: self.livekit_track_sid.clone(),
            segment_index: self.segment_index,
            first_frame_at_ns: self.first_frame_at_ns,
            last_frame_at_ns: self.last_frame_at_ns,
            timeline_start_sample: self.timeline_start_sample,
            sample_count: self.sample_count,
            pcm_path: self.pcm_path.clone(),
            status: self.status,
        }
    }
}

/// A segment with the egress that feeds it, once that is known.
#[derive(Debug)]
pub struct SegmentRow {
    pub segment: TrackSegment,
    pub egress_id: Option<String>,
}

/// What a kept segment holds.
#[verifier::ext_equal]
pub struct SegmentRowModel {
    pub segment: SegmentModel,
    pub egress_id: Option<Seq<char>>,
}

impl View for SegmentRow {
    type V = SegmentRowModel;

    open spec fn view(&self) -> SegmentRowModel {
        SegmentRowModel { segment: self.segment@, egress_id: text_of(self.egress_id) }
    }
}

impl Clone for SegmentRow {
    fn clone(&self) -> (copy: SegmentRow)
        ensures
            copy@ == self@,
    {
        SegmentRow { segment: self.segment.clone(), egress_id: clone_text(&self.egress_id) }
    }
}

/// A participant in the room, with the state of the connection.
#[derive(Debug)]
pub struct ParticipantView {
    pub participant: Participant,
    pub connection_state: ConnectionState,
}

/// Connections that hold a place in the room.
pub open spec fn is_present(state: ConnectionState) -> bool {
    state is Connecting || state is Online || state is Reconnecting
}

/// Whether a connection in this state holds a place in the room.
pub fn present(state: ConnectionState) -> (yes: bool)
    ensures
        yes == is_present(state),
{
    match state {
        ConnectionState::Connecting | ConnectionState::Online | ConnectionState::Reconnecting => {
            true
        },
        ConnectionState::Left | ConnectionState::Offline => false,
    }
}

/// Connections that may act for a host.
pub open spec fn is_acting(state: ConnectionState) -> bool {
    state is Connecting || state is Online
}

/// Whether a connection in this state may act for a host.
pub fn acting(state: ConnectionState) -> (yes: bool)
    ensures
        yes == is_acting(state),
{
    match state {
        ConnectionState::Connecting | ConnectionState::Online => true,
        _ => false,
    }
}

/// Recordings that take new tracks.
pub open spec fn is_open(status: RecordingStatus) -> bool {
    status is Starting || status is Recording
}

/// Whether a recording with this status takes new tracks.
pub fn open_for_tracks(status: RecordingStatus) -> (yes: bool)
    ensures
        yes == is_open(status),
{
    match status {
        RecordingStatus::Starting | RecordingStatus::Recording => true,
        _ => false,
    }
}

/// Recordings that were asked to stop and did not fail.
pub open spec fn is_stopped(status: RecordingStatus) -> bool {
    status is Stopping || status is Completed
}

/// Whether a recording with this status needs no further stop.
pub fn stopped(status: RecordingStatus) -> (yes: bool)
    ensures
        yes == is_stopped(status),
{
    match status {
        RecordingStatus::Stopping | RecordingStatus::Completed => true,
        _ => false,
    }
}

/// Segments that take no more audio.
pub open spec fn is_final(status: TrackSegmentStatus) -> bool {
    status is Closed || status is Failed
}

/// Whether a segment with this status takes no more audio.
pub fn finished(status: TrackSegmentStatus) -> (yes: bool)
    ensures
        yes == is_final(status),
{
    match status {
        TrackSegmentStatus::Closed | TrackSegmentStatus::Failed => true,
        _ => false,
    }
}

/// Who is in the room: whoever connects, is online or is waited for, and neither one who left
/// nor one who was given up. To act for a host one must be there: being waited for is not
/// enough.
pub proof fn law_who_is_there(state: ConnectionState)
    ensures
        is_present(state) <==> !(state is Left || state is Offline),
        is_acting(state) <==> !(state is Left || state is Offline || state is Reconnecting),
{
}

/// A recording takes new tracks until it is asked to stop, is complete or failed; one that
/// stops or is complete is not stopped again, while one that failed may be. A segment takes
/// audio until it is closed or failed.
pub proof fn law_what_is_under_way(status: RecordingStatus, segment: TrackSegmentStatus)
    ensures
        is_open(status) <==> !(status is Stopping || status is Completed || status is Failed),
        is_stopped(status) <==> !(status is Starting || status is Recording || status is Failed),
        is_final(segment) <==> !(segment is Opening || segment is Writing),
{
}

} // verus!
