//! What the server knows, and how each operation changes it.

use vstd::prelude::*;

use crate::domain::{
    is_present, ConnectionModel, ConnectionState, CredentialModel, ParticipantModel,
    ParticipantRole, RecordingModel, RecordingRoom, RecordingStatus, RoomSession, SegmentModel,
    SegmentRowModel, SessionRow, TrackSegmentStatus,
};
use crate::order::SortKey;
use crate::table::Rows;

verus! {

/// Why an operation on the store was refused.
#[derive(Clone, Copy, Debug, PartialEq, Eq, Structural)]
pub enum StoreError {
    /// No greater room generation can be numbered.
    GenerationsExhausted,
    /// A record with this identifier exists already.
    IdTaken,
    /// The record asked for does not exist.
    Missing,
    /// A number does not fit a signed 64-bit column.
    OutOfRange,
}

/// How long a fresh connection may take, and a participant may stay away: 60 s.
pub const CONNECT_GRACE_NS: i128 = 60_000_000_000;

/// How long a host may stay away: 300 s.
pub const HOST_GRACE_NS: i128 = 300_000_000_000;

/// The contents of the store.
#[verifier::ext_equal]
pub struct StoreModel {
    pub participants: Rows<ParticipantModel>,
    pub credentials: Rows<CredentialModel>,
    pub connections: Rows<ConnectionModel>,
    pub sessions: Rows<SessionRow>,
    pub recordings: Rows<RecordingModel>,
    pub recording_rooms: Rows<RecordingRoom>,
    pub segments: Rows<SegmentRowModel>,
    pub webhooks: Set<Seq<char>>,
    pub empty_since: Option<i128>,
    pub host_credential: Option<(u128, Seq<char>)>,
}

/// The greatest generation in a list of room sessions; 0 where there is none.
pub open spec fn top_generation(rows: Seq<SessionRow>) -> int
    decreases rows.len(),
{
    if rows.len() == 0 {
        0
    } else if rows.len() == 1 {
        rows[0].session.generation as int
    } else {
        let before = top_generation(rows.drop_last());
        let last = rows.last().session.generation as int;
        if last > before {
            last
        } else {
            before
        }
    }
}

/// Whether the session under an identifier is active.
pub open spec fn row_active(sessions: Rows<SessionRow>, id: u128) -> bool {
    sessions.has(id) && sessions.map[id].active
}

/// The active session in a table.
pub open spec fn active_in(sessions: Rows<SessionRow>) -> Option<RoomSession> {
    if exists|id: u128| row_active(sessions, id) {
        Some(sessions.map[choose|id: u128| row_active(sessions, id)].session)
    } else {
        None
    }
}

/// Whether a key holds the segment of a track in a recording.
pub open spec fn row_holds(
    segments: Rows<SegmentRowModel>,
    key: u128,
    recording_id: u128,
    track_sid: Seq<char>,
) -> bool {
    segments.has(key) && is_track(segments.map[key], recording_id, track_sid)
}

/// The key of the segment of a track in a table.
pub open spec fn key_in(
    segments: Rows<SegmentRowModel>,
    recording_id: u128,
    track_sid: Seq<char>,
) -> Option<u128> {
    if exists|key: u128| row_holds(segments, key, recording_id, track_sid) {
        Some(choose|key: u128| row_holds(segments, key, recording_id, track_sid))
    } else {
        None
    }
}

/// The recording with a given status that started last; of two that started at
/// the same instant, the one that came first.
pub open spec fn latest_with(rows: Seq<RecordingModel>, status: RecordingStatus) -> Option<
    RecordingModel,
>
    decreases rows.len(),
{
    if rows.len() == 0 {
        None
    } else {
        let before = latest_with(rows.drop_last(), status);
        let last = rows.last();
        if last.status == status && match before {
            Some(b) => last.started_at_utc > b.started_at_utc,
            None => true,
        } {
            Some(last)
        } else {
            before
        }
    }
}

/// Whether a connection waits for its participant and has waited long enough.
pub open spec fn is_overdue(c: ConnectionModel, now: i128) -> bool {
    &&& c.state is Connecting || c.state is Reconnecting
    &&& match c.reconnect_deadline {
        Some(deadline) => deadline <= now,
        None => false,
    }
}

/// A connection after the deadlines up to `now` have been applied.
pub open spec fn expired(c: ConnectionModel, now: i128) -> ConnectionModel {
    if is_overdue(c, now) {
        ConnectionModel { state: ConnectionState::Offline, changed_at: now, ..c }
    } else {
        c
    }
}

/// What participants are listed by.
pub open spec fn participant_keys(list: Seq<ParticipantModel>) -> Seq<SortKey> {
    list.map_values(|p: ParticipantModel| (0u128, p.created_at))
}

/// What segments are listed by.
pub open spec fn segment_keys(list: Seq<SegmentRowModel>) -> Seq<SortKey> {
    list.map_values(
        |r: SegmentRowModel|
            (r.segment.participant_id, r.segment.timeline_start_sample as i128),
    )
}

/// Whether a segment is the one of a track in a recording.
pub open spec fn is_track(row: SegmentRowModel, recording_id: u128, track_sid: Seq<char>) -> bool {
    row.segment.recording_id == recording_id && row.segment.livekit_track_sid == track_sid
}

impl StoreModel {
    /// An empty store.
    pub open spec fn fresh() -> StoreModel {
        StoreModel {
            participants: Rows::none(),
            credentials: Rows::none(),
            connections: Rows::none(),
            sessions: Rows::none(),
            recordings: Rows::none(),
            recording_rooms: Rows::none(),
            segments: Rows::none(),
            webhooks: Set::empty(),
            empty_since: None,
            host_credential: None,
        }
    }

    /// The tables are sound and each record stands under its own identifier.
    pub open spec fn tables_wf(self) -> bool {
        &&& self.participants.wf()
        &&& self.credentials.wf()
        &&& self.connections.wf()
        &&& self.sessions.wf()
        &&& self.recordings.wf()
        &&& self.recording_rooms.wf()
        &&& self.segments.wf()
        &&& forall|k: u128|
            self.participants.has(k) ==> (#[trigger] self.participants.map[k]).id == k
        &&& forall|k: u128| self.sessions.has(k) ==> (#[trigger] self.sessions.map[k]).session.id == k
        &&& forall|k: u128| self.recordings.has(k) ==> (#[trigger] self.recordings.map[k]).id == k
        &&& forall|k: u128|
            self.segments.has(k) ==> (#[trigger] self.segments.map[k]).segment.id == k
    }

    /// At most one room session is active, it has the greatest generation, and no
    /// generation comes twice.
    pub open spec fn sessions_wf(self) -> bool {
        &&& forall|a: u128, b: u128|
            self.sessions.has(a) && self.sessions.has(b) && (#[trigger] self.sessions.map[a]).active
                ==> (#[trigger] self.sessions.map[b]).session.generation
                <= self.sessions.map[a].session.generation
        &&& forall|a: u128, b: u128|
            self.sessions.has(a) && self.sessions.has(b) && (#[trigger] self.sessions.map[a]).active
                && (#[trigger] self.sessions.map[b]).active ==> a == b
        &&& forall|a: u128, b: u128|
            self.sessions.has(a) && self.sessions.has(b) && (
            #[trigger] self.sessions.map[a]).session.generation == (
            #[trigger] self.sessions.map[b]).session.generation ==> a == b
    }

    /// A track has at most one segment in a recording.
    pub open spec fn segments_wf(self) -> bool {
        forall|a: u128, b: u128|
            self.segments.has(a) && self.segments.has(b) && is_track(
                #[trigger] self.segments.map[a],
                self.segments.map[b].segment.recording_id,
                (#[trigger] self.segments.map[b]).segment.livekit_track_sid,
            ) ==> a == b
    }

    /// What holds of the store at all times.
    pub open spec fn wf(self) -> bool {
        self.tables_wf() && self.sessions_wf() && self.segments_wf()
    }

    // Room sessions.

    /// Whether the session under an identifier is active.
    pub open spec fn is_active(self, id: u128) -> bool {
        row_active(self.sessions, id)
    }

    /// The active room session.
    pub open spec fn active_session(self) -> Option<RoomSession> {
        active_in(self.sessions)
    }

    /// The host of the active room session.
    pub open spec fn room_host(self) -> Option<u128> {
        match self.active_session() {
            Some(session) => session.host_participant_id,
            None => None,
        }
    }

    /// The session that would be opened under an identifier.
    pub open spec fn next_session(self, id: u128) -> RoomSession {
        RoomSession {
            id,
            generation: (top_generation(self.sessions.list()) + 1) as i64,
            host_participant_id: None,
        }
    }

    /// The active session, or a new one with the next generation.
    pub open spec fn ensured(self, id: u128, now: i128) -> (StoreModel, Result<
        RoomSession,
        StoreError,
    >) {
        match self.active_session() {
            Some(session) => (self, Ok(session)),
            None => if top_generation(self.sessions.list()) == i64::MAX {
                (self, Err(StoreError::GenerationsExhausted))
            } else if self.sessions.has(id) {
                (self, Err(StoreError::IdTaken))
            } else {
                let session = self.next_session(id);
                let row = SessionRow { session, active: true, opened_at: now, closed_at: None };
                (StoreModel { sessions: self.sessions.put(id, row), ..self }, Ok(session))
            },
        }
    }

    /// The store with another role for a participant, where there is such a participant.
    pub open spec fn with_role(self, id: u128, role: ParticipantRole) -> StoreModel {
        if self.participants.has(id) {
            StoreModel {
                participants: self.participants.put(
                    id,
                    ParticipantModel { role, ..self.participants.map[id] },
                ),
                ..self
            }
        } else {
            self
        }
    }

    /// The store with a host for a session.
    pub open spec fn with_host(self, session_id: u128, participant_id: u128) -> StoreModel {
        let row = self.sessions.map[session_id];
        StoreModel {
            sessions: self.sessions.put(
                session_id,
                SessionRow {
                    session: RoomSession { host_participant_id: Some(participant_id), ..row.session },
                    ..row
                },
            ),
            ..self
        }.with_role(participant_id, ParticipantRole::Host)
    }

    /// A participant becomes host of the active session if it has none.
    pub open spec fn claimed(self, participant_id: u128, session_id: u128, now: i128) -> (
        StoreModel,
        Result<bool, StoreError>,
    ) {
        let (ensured, session) = self.ensured(session_id, now);
        match session {
            Err(e) => (ensured, Err(e)),
            Ok(s) => if s.host_participant_id is None {
                (ensured.with_host(s.id, participant_id), Ok(true))
            } else {
                (ensured, Ok(false))
            },
        }
    }

    /// Whether some connection holds a place in the room.
    pub open spec fn occupied(self) -> bool {
        exists|k: u128| self.connections.has(k) && is_present((#[trigger] self.connections.map[k]).state)
    }

    /// How many connections hold a place in the room.
    pub open spec fn present_count(self) -> nat {
        self.connections.count(|c: ConnectionModel| is_present(c.state))
    }

    /// The store with a session closed.
    pub open spec fn with_closed(self, session: RoomSession, now: i128) -> StoreModel {
        let row = self.sessions.map[session.id];
        let closed = StoreModel {
            sessions: self.sessions.put(
                session.id,
                SessionRow { active: false, closed_at: Some(now), ..row },
            ),
            ..self
        };
        match session.host_participant_id {
            Some(host) => closed.with_role(host, ParticipantRole::Participant),
            None => closed,
        }
    }

    /// Closes the active session of an empty room and releases its host.
    pub open spec fn closed_if_empty(self, now: i128) -> (StoreModel, Option<RoomSession>) {
        if self.occupied() {
            (self, None)
        } else {
            match self.active_session() {
                Some(session) => (self.with_closed(session, now), Some(session)),
                None => (self, None),
            }
        }
    }

    // Participants and their connections.

    /// A participant is added, or the nickname, role and last visit of one that is known
    /// are replaced.
    pub open spec fn upserted(self, p: ParticipantModel) -> StoreModel {
        let row = if self.participants.has(p.id) {
            ParticipantModel {
                nickname: p.nickname,
                role: p.role,
                last_seen_at: p.last_seen_at,
                ..self.participants.map[p.id]
            }
        } else {
            p
        };
        StoreModel { participants: self.participants.put(p.id, row), ..self }
    }

    /// The hash of a participant's resume token is replaced.
    pub open spec fn with_credential(self, id: u128, hash: Seq<char>, now: i128) -> StoreModel {
        let created_at = if self.credentials.has(id) {
            self.credentials.map[id].created_at
        } else {
            now
        };
        StoreModel {
            credentials: self.credentials.put(
                id,
                CredentialModel { resume_token_hash: hash, created_at, rotated_at: now },
            ),
            ..self
        }
    }

    /// A participant starts to connect under a new generation.
    pub open spec fn connecting(self, id: u128, generation: u128, now: i128) -> StoreModel {
        StoreModel {
            connections: self.connections.put(
                id,
                ConnectionModel {
                    generation,
                    livekit_participant_sid: None,
                    state: ConnectionState::Connecting,
                    reconnect_deadline: Some((now + CONNECT_GRACE_NS) as i128),
                    changed_at: now,
                },
            ),
            ..self
        }
    }

    /// Whether a participant's connection has this generation.
    pub open spec fn current(self, id: u128, generation: u128) -> bool {
        self.connections.has(id) && self.connections.map[id].generation == generation
    }

    /// The state of the connection with this generation.
    pub open spec fn connection_state(self, id: u128, generation: u128) -> Option<ConnectionState> {
        if self.current(id, generation) {
            Some(self.connections.map[id].state)
        } else {
            None
        }
    }

    /// A connection is online, if its generation is current.
    pub open spec fn online(
        self,
        id: u128,
        generation: u128,
        sid: Option<Seq<char>>,
        now: i128,
    ) -> (StoreModel, bool) {
        if self.current(id, generation) {
            (
                StoreModel {
                    connections: self.connections.put(
                        id,
                        ConnectionModel {
                            generation,
                            livekit_participant_sid: sid,
                            state: ConnectionState::Online,
                            reconnect_deadline: None,
                            changed_at: now,
                        },
                    ),
                    ..self
                },
                true,
            )
        } else {
            (self, false)
        }
    }

    /// A connection waits for its participant until a deadline, if its generation is
    /// current and the participant did not leave.
    pub open spec fn reconnecting(
        self,
        id: u128,
        generation: u128,
        deadline: i128,
        now: i128,
    ) -> (StoreModel, bool) {
        if self.current(id, generation) && !(self.connections.map[id].state is Left) {
            (
                StoreModel {
                    connections: self.connections.put(
                        id,
                        ConnectionModel {
                            state: ConnectionState::Reconnecting,
                            reconnect_deadline: Some(deadline),
                            changed_at: now,
                            ..self.connections.map[id]
                        },
                    ),
                    ..self
                },
                true,
            )
        } else {
            (self, false)
        }
    }

    /// A participant leaves, if the generation is current.
    pub open spec fn left(self, id: u128, generation: u128, now: i128) -> (StoreModel, bool) {
        if self.current(id, generation) {
            (
                StoreModel {
                    connections: self.connections.put(
                        id,
                        ConnectionModel {
                            state: ConnectionState::Left,
                            reconnect_deadline: None,
                            changed_at: now,
                            ..self.connections.map[id]
                        },
                    ),
                    ..self
                },
                true,
            )
        } else {
            (self, false)
        }
    }

    /// Overdue connections go offline.
    pub open spec fn expire(self, now: i128) -> StoreModel {
        StoreModel {
            connections: self.connections.each(|c: ConnectionModel| expired(c, now)),
            ..self
        }
    }

    /// How many connections are overdue.
    pub open spec fn overdue_count(self, now: i128) -> nat {
        self.connections.count(|c: ConnectionModel| is_overdue(c, now))
    }

    /// Whether a participant holds a place in the room.
    pub open spec fn holds_place(self, id: u128) -> bool {
        self.connections.has(id) && is_present(self.connections.map[id].state)
    }

    /// The participants in the room, in the order in which they became known.
    pub open spec fn in_room(self) -> Seq<ParticipantModel> {
        self.participants.list().filter(|p: ParticipantModel| self.holds_place(p.id))
    }

    // Recordings.

    /// The recording in progress: one that starts, else one that runs, else one that stops.
    pub open spec fn active_recording(self) -> Option<RecordingModel> {
        let rows = self.recordings.list();
        match latest_with(rows, RecordingStatus::Starting) {
            Some(r) => Some(r),
            None => match latest_with(rows, RecordingStatus::Recording) {
                Some(r) => Some(r),
                None => latest_with(rows, RecordingStatus::Stopping),
            },
        }
    }

    /// A recording is added together with its room session.
    pub open spec fn with_recording(self, r: RecordingModel, session: RoomSession) -> (
        StoreModel,
        Result<(), StoreError>,
    ) {
        if self.recordings.has(r.id) || self.recording_rooms.has(r.id) {
            (self, Err(StoreError::IdTaken))
        } else {
            (
                StoreModel {
                    recordings: self.recordings.put(
                        r.id,
                        RecordingModel { stopped_at_utc: None, ..r },
                    ),
                    recording_rooms: self.recording_rooms.put(
                        r.id,
                        RecordingRoom {
                            room_session_id: session.id,
                            room_generation: session.generation,
                        },
                    ),
                    ..self
                },
                Ok(()),
            )
        }
    }

    /// The room session of a recording, under the generation it had then.
    pub open spec fn recording_room(self, recording_id: u128) -> Option<RoomSession> {
        match self.recording_rooms.get(recording_id) {
            None => None,
            Some(room) => match self.sessions.get(room.room_session_id) {
                None => None,
                Some(row) => Some(
                    RoomSession {
                        id: row.session.id,
                        generation: room.room_generation,
                        host_participant_id: row.session.host_participant_id,
                    },
                ),
            },
        }
    }

    /// The status, end and version of a recording are replaced.
    pub open spec fn with_progress(self, r: RecordingModel) -> StoreModel {
        if self.recordings.has(r.id) {
            StoreModel {
                recordings: self.recordings.put(
                    r.id,
                    RecordingModel {
                        status: r.status,
                        stopped_at_utc: r.stopped_at_utc,
                        version: r.version,
                        ..self.recordings.map[r.id]
                    },
                ),
                ..self
            }
        } else {
            self
        }
    }

    // Track segments.

    /// Whether a key holds the segment of a track in a recording.
    pub open spec fn holds_track(self, key: u128, recording_id: u128, track_sid: Seq<char>) -> bool {
        row_holds(self.segments, key, recording_id, track_sid)
    }

    /// The key of the segment of a track in a recording.
    pub open spec fn track_key(self, recording_id: u128, track_sid: Seq<char>) -> Option<u128> {
        key_in(self.segments, recording_id, track_sid)
    }

    /// The segment of a track in a recording.
    pub open spec fn track(self, recording_id: u128, track_sid: Seq<char>) -> Option<
        SegmentRowModel,
    > {
        match self.track_key(recording_id, track_sid) {
            Some(key) => Some(self.segments.map[key]),
            None => None,
        }
    }

    /// The store with another record for a track, where the track has one.
    pub open spec fn with_track(
        self,
        recording_id: u128,
        track_sid: Seq<char>,
        row: SegmentRowModel,
    ) -> StoreModel {
        match self.track_key(recording_id, track_sid) {
            Some(key) => StoreModel { segments: self.segments.put(key, row), ..self },
            None => self,
        }
    }

    /// A segment is added unless its identifier or its track has one.
    pub open spec fn with_segment(self, s: SegmentModel) -> (StoreModel, Result<
        bool,
        StoreError,
    >) {
        if s.first_frame_at_ns > i64::MAX || s.timeline_start_sample > i64::MAX {
            (self, Err(StoreError::OutOfRange))
        } else if self.segments.has(s.id) || self.track_key(
            s.recording_id,
            s.livekit_track_sid,
        ) is Some {
            (self, Ok(false))
        } else {
            (
                StoreModel {
                    segments: self.segments.put(
                        s.id,
                        SegmentRowModel {
                            segment: SegmentModel { last_frame_at_ns: None, sample_count: 0, ..s },
                            egress_id: None,
                        },
                    ),
                    ..self
                },
                Ok(true),
            )
        }
    }

    /// The egress and the status of a track are replaced.
    pub open spec fn with_egress(
        self,
        recording_id: u128,
        track_sid: Seq<char>,
        egress_id: Option<Seq<char>>,
        status: TrackSegmentStatus,
    ) -> StoreModel {
        match self.track(recording_id, track_sid) {
            Some(row) => self.with_track(
                recording_id,
                track_sid,
                SegmentRowModel { segment: SegmentModel { status, ..row.segment }, egress_id },
            ),
            None => self,
        }
    }

    /// What has been received of a track is noted.
    pub open spec fn with_samples(
        self,
        recording_id: u128,
        track_sid: Seq<char>,
        first_ns: u64,
        timeline_start: u64,
        samples: u64,
        status: TrackSegmentStatus,
    ) -> StoreModel {
        match self.track(recording_id, track_sid) {
            Some(row) => self.with_track(
                recording_id,
                track_sid,
                SegmentRowModel {
                    segment: SegmentModel {
                        first_frame_at_ns: first_ns,
                        timeline_start_sample: timeline_start,
                        sample_count: samples,
                        status,
                        ..row.segment
                    },
                    ..row
                },
            ),
            None => self,
        }
    }

    /// A track has ended.
    pub open spec fn with_end(
        self,
        recording_id: u128,
        track_sid: Seq<char>,
        last_ns: u64,
        samples: u64,
    ) -> StoreModel {
        match self.track(recording_id, track_sid) {
            Some(row) => self.with_track(
                recording_id,
                track_sid,
                SegmentRowModel {
                    segment: SegmentModel {
                        last_frame_at_ns: Some(last_ns),
                        sample_count: samples,
                        status: TrackSegmentStatus::Closed,
                        ..row.segment
                    },
                    ..row
                },
            ),
            None => self,
        }
    }

    /// The segments of a recording, in the order in which they came.
    pub open spec fn segments_of(self, recording_id: u128) -> Seq<SegmentRowModel> {
        self.segments.list().filter(
            |r: SegmentRowModel| r.segment.recording_id == recording_id,
        )
    }
}

/// A room session with the next generation, opened where none is active, keeps the
/// store sound.
pub proof fn lemma_opened_wf(m: StoreModel, id: u128, now: i128)
    requires
        m.wf(),
        m.active_session() is None,
        !m.sessions.has(id),
        top_generation(m.sessions.list()) < i64::MAX,
    ensures
        m.ensured(id, now).0.wf(),
{
    let after = m.ensured(id, now).0;
    crate::table::lemma_put_wf(m.sessions, id, after.sessions.map[id]);
    assert forall|k: u128| m.sessions.has(k) implies (
    #[trigger] m.sessions.map[k]).session.generation <= top_generation(m.sessions.list()) by {
        assert(m.sessions.keys.contains(k));
        let i = choose|i: int| 0 <= i < m.sessions.keys.len() && m.sessions.keys[i] == k;
        lemma_top(m.sessions.list());
        assert(m.sessions.list()[i] == m.sessions.map[k]);
    }
    assert forall|k: u128| m.sessions.has(k) implies !(#[trigger] m.sessions.map[k]).active by {
        if m.sessions.map[k].active {
            assert(m.is_active(k));
        }
    }
    lemma_top(m.sessions.list());
}

/// The top generation is at least every generation, and is one where there is any.
pub proof fn lemma_top(rows: Seq<SessionRow>)
    ensures
        forall|i: int|
            0 <= i < rows.len() ==> (#[trigger] rows[i]).session.generation <= top_generation(rows),
        rows.len() == 0 ==> top_generation(rows) == 0,
        i64::MIN <= top_generation(rows) <= i64::MAX,
    decreases rows.len(),
{
    if rows.len() > 0 {
        lemma_top(rows.drop_last());
        assert forall|i: int| 0 <= i < rows.len() implies (
        #[trigger] rows[i]).session.generation <= top_generation(rows) by {
            if i < rows.len() - 1 {
                assert(rows.drop_last()[i] == rows[i]);
            }
        }
    }
}

/// After a session was ensured it is the active one.
pub proof fn lemma_ensured_is_active(m: StoreModel, id: u128, now: i128)
    requires
        m.wf(),
    ensures
        m.ensured(id, now).0.wf(),
        match m.ensured(id, now).1 {
            Ok(s) => {
                &&& m.ensured(id, now).0.active_session() == Some(s)
                &&& m.ensured(id, now).0.is_active(s.id)
                &&& m.ensured(id, now).0.sessions.map[s.id].session == s
            },
            Err(_) => m.ensured(id, now).0 == m,
        },
{
    let (after, session) = m.ensured(id, now);
    lemma_top(m.sessions.list());
    if m.active_session() is None && session is Ok {
        lemma_opened_wf(m, id, now);
        assert(after.is_active(id));
    }
    if let Ok(s) = session {
        let chosen = choose|k: u128| row_active(after.sessions, k);
        if m.active_session() is Some {
            assert(after.is_active(chosen));
            assert(after.sessions.map[chosen].session.id == chosen);
        } else {
            assert(after.is_active(chosen) && after.is_active(id));
            assert(after.sessions.map[chosen].active && after.sessions.map[id].active);
        }
    }
}

/// A session that keeps its identifier and generation, and is not made active, keeps
/// the store sound.
pub proof fn lemma_session_update_wf(m: StoreModel, id: u128, row: SessionRow)
    requires
        m.wf(),
        m.sessions.has(id),
        row.session.id == id,
        row.session.generation == m.sessions.map[id].session.generation,
        row.active ==> m.sessions.map[id].active,
    ensures
        (StoreModel { sessions: m.sessions.put(id, row), ..m }).wf(),
{
    crate::table::lemma_put_wf(m.sessions, id, row);
    let after = StoreModel { sessions: m.sessions.put(id, row), ..m };
    assert(after.sessions_wf()) by {
        assert forall|a: u128, b: u128|
            after.sessions.has(a) && after.sessions.has(b) && (
            #[trigger] after.sessions.map[a]).active implies (
        #[trigger] after.sessions.map[b]).session.generation
            <= after.sessions.map[a].session.generation by {
            assert(m.sessions.map[a].active);
            assert(m.sessions.map[b].session.generation <= m.sessions.map[a].session.generation);
        }
        assert forall|a: u128, b: u128|
            after.sessions.has(a) && after.sessions.has(b) && (
            #[trigger] after.sessions.map[a]).active && (
            #[trigger] after.sessions.map[b]).active implies a == b by {
            assert(m.sessions.map[a].active && m.sessions.map[b].active);
        }
        assert forall|a: u128, b: u128|
            after.sessions.has(a) && after.sessions.has(b) && (
            #[trigger] after.sessions.map[a]).session.generation == (
            #[trigger] after.sessions.map[b]).session.generation implies a == b by {
            assert(m.sessions.map[a].session.generation == m.sessions.map[b].session.generation);
        }
    }
}

/// The room is occupied exactly when some connection counts as present.
pub proof fn lemma_occupied(m: StoreModel)
    requires
        m.wf(),
    ensures
        m.occupied() == (m.present_count() > 0),
{
    let p = |c: ConnectionModel| is_present(c.state);
    let list = m.connections.list();
    broadcast use vstd::seq_lib::group_filter_ensures;
    if m.occupied() {
        let k = choose|k: u128|
            m.connections.has(k) && is_present((#[trigger] m.connections.map[k]).state);
        assert(m.connections.keys.contains(k));
        let i = choose|i: int| 0 <= i < m.connections.keys.len() && m.connections.keys[i] == k;
        assert(p(list[i]));
        assert(list.filter(p).contains(list[i]));
    }
    if m.present_count() > 0 {
        let c = list.filter(p)[0];
        assert(list.filter(p).contains(c));
        list.lemma_filter_contains_rev(p, c);
        list.lemma_filter_pred(p, 0);
        let i = choose|i: int| 0 <= i < list.len() && list[i] == c;
        let k = m.connections.keys[i];
        assert(m.connections.keys.contains(k));
        assert(m.connections.has(k) && is_present(m.connections.map[k].state));
    }
}

/// Another record for the same track, under the same identifier, keeps the store sound.
pub proof fn lemma_segment_update_wf(m: StoreModel, key: u128, row: SegmentRowModel)
    requires
        m.wf(),
        m.segments.has(key),
        row.segment.id == key,
        is_track(
            row,
            m.segments.map[key].segment.recording_id,
            m.segments.map[key].segment.livekit_track_sid,
        ),
    ensures
        (StoreModel { segments: m.segments.put(key, row), ..m }).wf(),
{
    crate::table::lemma_put_wf(m.segments, key, row);
    let after = StoreModel { segments: m.segments.put(key, row), ..m };
    assert forall|a: u128, b: u128|
        after.segments.has(a) && after.segments.has(b) && is_track(
            #[trigger] after.segments.map[a],
            after.segments.map[b].segment.recording_id,
            (#[trigger] after.segments.map[b]).segment.livekit_track_sid,
        ) implies a == b by {
        assert(is_track(
            m.segments.map[a],
            m.segments.map[b].segment.recording_id,
            m.segments.map[b].segment.livekit_track_sid,
        ));
    }
}

/// Whether two room sessions can stand beside each other.
pub open spec fn sessions_agree(a: SessionRow, b: SessionRow) -> bool {
    &&& a.session.generation != b.session.generation
    &&& !(a.active && b.active)
    &&& a.active ==> b.session.generation < a.session.generation
    &&& b.active ==> a.session.generation < b.session.generation
}

/// Whether a room session agrees with all others.
pub open spec fn loadable_session(m: StoreModel, row: SessionRow) -> bool {
    &&& !m.sessions.has(row.session.id)
    &&& forall|k: u128| m.sessions.has(k) ==> sessions_agree(#[trigger] m.sessions.map[k], row)
}

/// A room session that agrees with all others keeps the store sound.
pub proof fn lemma_loaded_session_wf(m: StoreModel, row: SessionRow)
    requires
        m.wf(),
        loadable_session(m, row),
    ensures
        (StoreModel { sessions: m.sessions.put(row.session.id, row), ..m }).wf(),
{
    let id = row.session.id;
    crate::table::lemma_put_wf(m.sessions, id, row);
    let after = StoreModel { sessions: m.sessions.put(id, row), ..m };
    assert(after.sessions_wf()) by {
        assert forall|k: u128| after.sessions.has(k) && k != id implies m.sessions.has(k)
            && #[trigger] after.sessions.map[k] == m.sessions.map[k] && sessions_agree(
            m.sessions.map[k],
            row,
        ) by {}
        assert forall|a: u128, b: u128|
            after.sessions.has(a) && after.sessions.has(b) && (
            #[trigger] after.sessions.map[a]).active implies (
        #[trigger] after.sessions.map[b]).session.generation
            <= after.sessions.map[a].session.generation by {
            if a != id && b != id {
                assert(m.sessions.map[a].active);
                assert(m.sessions.map[b].session.generation
                    <= m.sessions.map[a].session.generation);
            }
        }
        assert forall|a: u128, b: u128|
            after.sessions.has(a) && after.sessions.has(b) && (
            #[trigger] after.sessions.map[a]).active && (
            #[trigger] after.sessions.map[b]).active implies a == b by {
            if a != id && b != id {
                assert(m.sessions.map[a].active && m.sessions.map[b].active);
            }
        }
        assert forall|a: u128, b: u128|
            after.sessions.has(a) && after.sessions.has(b) && (
            #[trigger] after.sessions.map[a]).session.generation == (
            #[trigger] after.sessions.map[b]).session.generation implies a == b by {
            if a != id && b != id {
                assert(m.sessions.map[a].session.generation
                    == m.sessions.map[b].session.generation);
            }
        }
    }
}

/// A segment for a track that has none keeps the store sound.
pub proof fn lemma_loaded_segment_wf(m: StoreModel, row: SegmentRowModel)
    requires
        m.wf(),
        !m.segments.has(row.segment.id),
        m.track_key(row.segment.recording_id, row.segment.livekit_track_sid) is None,
    ensures
        (StoreModel { segments: m.segments.put(row.segment.id, row), ..m }).wf(),
{
    let id = row.segment.id;
    crate::table::lemma_put_wf(m.segments, id, row);
    let after = StoreModel { segments: m.segments.put(id, row), ..m };
    assert forall|a: u128, b: u128|
        after.segments.has(a) && after.segments.has(b) && is_track(
            #[trigger] after.segments.map[a],
            after.segments.map[b].segment.recording_id,
            (#[trigger] after.segments.map[b]).segment.livekit_track_sid,
        ) implies a == b by {
        if a == id && b != id {
            assert(m.holds_track(b, row.segment.recording_id, row.segment.livekit_track_sid));
        } else if b == id && a != id {
            assert(m.holds_track(a, row.segment.recording_id, row.segment.livekit_track_sid));
        } else if a != id && b != id {
            assert(is_track(
                m.segments.map[a],
                m.segments.map[b].segment.recording_id,
                m.segments.map[b].segment.livekit_track_sid,
            ));
        }
    }
}

} // verus!
