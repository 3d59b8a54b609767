//! Records as rows of a database: identifiers, instants and enumerations as text.

use vstd::prelude::*;

use crate::clock::{in_calendar, parse_time, time_form, time_text, time_value, writable};
use crate::domain::{
    clone_text, text_of, Connection, ConnectionModel, ConnectionState, Credential,
    CredentialModel, Participant, ParticipantModel, ParticipantRole, RecordingModel,
    RecordingSession, RecordingStatus, RoomSession, SegmentRow, SegmentRowModel,
    SessionRow, TrackSegment, TrackSegmentStatus,
};
use crate::ids::{hyphenated_text, parse_uuid, uuid_text, uuid_value};
use crate::text::same_text;

verus! {

// Names of enumerated values.

/// The name of a role.
pub open spec fn role_text(role: ParticipantRole) -> Seq<char> {
    match role {
        ParticipantRole::Host => "host"@,
        ParticipantRole::Participant => "participant"@,
    }
}

/// The name of a role.
pub fn role_name(role: &ParticipantRole) -> (name: &'static str)
    ensures
        name@ == role_text(*role),
{
    match role {
        ParticipantRole::Host => "host",
        ParticipantRole::Participant => "participant",
    }
}

/// The role with a name; any other text is taken for a participant.
pub open spec fn role_named(name: Seq<char>) -> ParticipantRole {
    if name == "host"@ {
        ParticipantRole::Host
    } else {
        ParticipantRole::Participant
    }
}

/// The role with a name.
pub fn role_from(name: &str) -> (role: ParticipantRole)
    ensures
        role == role_named(name@),
{
    if same_text(name, "host") {
        ParticipantRole::Host
    } else {
        ParticipantRole::Participant
    }
}

/// The name of a recording status.
pub open spec fn status_text(status: RecordingStatus) -> Seq<char> {
    match status {
        RecordingStatus::Starting => "starting"@,
        RecordingStatus::Recording => "recording"@,
        RecordingStatus::Stopping => "stopping"@,
        RecordingStatus::Completed => "completed"@,
        RecordingStatus::Failed => "failed"@,
    }
}

/// The name of a recording status.
pub fn status_name(status: &RecordingStatus) -> (name: &'static str)
    ensures
        name@ == status_text(*status),
{
    match status {
        RecordingStatus::Starting => "starting",
        RecordingStatus::Recording => "recording",
        RecordingStatus::Stopping => "stopping",
        RecordingStatus::Completed => "completed",
        RecordingStatus::Failed => "failed",
    }
}

/// The recording status with a name; any other text is taken for a failure.
pub open spec fn status_named(name: Seq<char>) -> RecordingStatus {
    if name == "starting"@ {
        RecordingStatus::Starting
    } else if name == "recording"@ {
        RecordingStatus::Recording
    } else if name == "stopping"@ {
        RecordingStatus::Stopping
    } else if name == "completed"@ {
        RecordingStatus::Completed
    } else {
        RecordingStatus::Failed
    }
}

/// The recording status with a name.
pub fn status_from(name: &str) -> (status: RecordingStatus)
    ensures
        status == status_named(name@),
{
    if same_text(name, "starting") {
        RecordingStatus::Starting
    } else if same_text(name, "recording") {
        RecordingStatus::Recording
    } else if same_text(name, "stopping") {
        RecordingStatus::Stopping
    } else if same_text(name, "completed") {
        RecordingStatus::Completed
    } else {
        RecordingStatus::Failed
    }
}

/// The name of a segment status.
pub open spec fn segment_status_text(status: TrackSegmentStatus) -> Seq<char> {
    match status {
        TrackSegmentStatus::Opening => "opening"@,
        TrackSegmentStatus::Writing => "writing"@,
        TrackSegmentStatus::Closed => "closed"@,
        TrackSegmentStatus::Failed => "failed"@,
    }
}

/// The name of a segment status.
pub fn segment_status_name(status: &TrackSegmentStatus) -> (name: &'static str)
    ensures
        name@ == segment_status_text(*status),
{
    match status {
        TrackSegmentStatus::Opening => "opening",
        TrackSegmentStatus::Writing => "writing",
        TrackSegmentStatus::Closed => "closed",
        TrackSegmentStatus::Failed => "failed",
    }
}

/// The segment status with a name; any other text is taken for a failure.
pub open spec fn segment_status_named(name: Seq<char>) -> TrackSegmentStatus {
    if name == "opening"@ {
        TrackSegmentStatus::Opening
    } else if name == "writing"@ {
        TrackSegmentStatus::Writing
    } else if name == "closed"@ {
        TrackSegmentStatus::Closed
    } else {
        TrackSegmentStatus::Failed
    }
}

/// The segment status with a name.
pub fn segment_status_from(name: &str) -> (status: TrackSegmentStatus)
    ensures
        status == segment_status_named(name@),
{
    if same_text(name, "opening") {
        TrackSegmentStatus::Opening
    } else if same_text(name, "writing") {
        TrackSegmentStatus::Writing
    } else if same_text(name, "closed") {
        TrackSegmentStatus::Closed
    } else {
        TrackSegmentStatus::Failed
    }
}

/// The name of a connection state.
pub open spec fn connection_state_text(state: ConnectionState) -> Seq<char> {
    match state {
        ConnectionState::Connecting => "connecting"@,
        ConnectionState::Online => "online"@,
        ConnectionState::Reconnecting => "reconnecting"@,
        ConnectionState::Left => "left"@,
        ConnectionState::Offline => "offline"@,
    }
}

/// The name of a connection state.
pub fn connection_state_name(state: &ConnectionState) -> (name: &'static str)
    ensures
        name@ == connection_state_text(*state),
{
    match state {
        ConnectionState::Connecting => "connecting",
        ConnectionState::Online => "online",
        ConnectionState::Reconnecting => "reconnecting",
        ConnectionState::Left => "left",
        ConnectionState::Offline => "offline",
    }
}

/// The connection state with a name; any other text is taken for a connection that is not
/// there.
pub open spec fn connection_state_named(name: Seq<char>) -> ConnectionState {
    if name == "connecting"@ {
        ConnectionState::Connecting
    } else if name == "online"@ {
        ConnectionState::Online
    } else if name == "reconnecting"@ {
        ConnectionState::Reconnecting
    } else if name == "left"@ {
        ConnectionState::Left
    } else {
        ConnectionState::Offline
    }
}

/// The connection state with a name.
pub fn connection_state_from(name: &str) -> (state: ConnectionState)
    ensures
        state == connection_state_named(name@),
{
    if same_text(name, "connecting") {
        ConnectionState::Connecting
    } else if same_text(name, "online") {
        ConnectionState::Online
    } else if same_text(name, "reconnecting") {
        ConnectionState::Reconnecting
    } else if same_text(name, "left") {
        ConnectionState::Left
    } else {
        ConnectionState::Offline
    }
}

/// Every role, status and state is known by its name.
pub proof fn law_names_are_read_back(
    role: ParticipantRole,
    status: RecordingStatus,
    segment_status: TrackSegmentStatus,
    state: ConnectionState,
)
    ensures
        role_named(role_text(role)) == role,
        status_named(status_text(status)) == status,
        segment_status_named(segment_status_text(segment_status)) == segment_status,
        connection_state_named(connection_state_text(state)) == state,
{
    reveal_strlit("host");
    reveal_strlit("participant");
    reveal_strlit("starting");
    reveal_strlit("recording");
    reveal_strlit("stopping");
    reveal_strlit("completed");
    reveal_strlit("failed");
    reveal_strlit("opening");
    reveal_strlit("writing");
    reveal_strlit("closed");
    reveal_strlit("connecting");
    reveal_strlit("online");
    reveal_strlit("reconnecting");
    reveal_strlit("left");
    reveal_strlit("offline");
    assert("host"@[0] != "participant"@[0]);
    assert("starting"@[2] == 'a' && "stopping"@[2] == 'o');
    assert("recording"@[0] == 'r' && "completed"@[0] == 'c' && "failed"@[0] == 'f');
    assert("starting"@[0] == 's' && "stopping"@[0] == 's');
    assert("opening"@[0] == 'o' && "writing"@[0] == 'w' && "closed"@[0] == 'c');
    assert("connecting"@[0] == 'c' && "online"@[1] == 'n' && "reconnecting"@[0] == 'r');
    assert("left"@[0] == 'l' && "offline"@[1] == 'f' && "online"@[0] == 'o');
}

// Signed columns.

/// The signed number with the same 64 bits.
pub open spec fn signed(value: u64) -> int {
    if value <= i64::MAX {
        value as int
    } else {
        value - 0x1_0000_0000_0000_0000
    }
}

/// The unsigned number with the same 64 bits.
pub open spec fn unsigned(value: i64) -> int {
    if value >= 0 {
        value as int
    } else {
        value + 0x1_0000_0000_0000_0000
    }
}

/// The signed number with the same 64 bits.
pub fn to_signed(value: u64) -> (column: i64)
    ensures
        column == signed(value),
        unsigned(column) == value,
{
    if value <= i64::MAX as u64 {
        value as i64
    } else {
        (value as i128 - 0x1_0000_0000_0000_0000) as i64
    }
}

/// The unsigned number with the same 64 bits.
pub fn to_unsigned(column: i64) -> (value: u64)
    ensures
        value == unsigned(column),
{
    if column >= 0 {
        column as u64
    } else {
        (column as i128 + 0x1_0000_0000_0000_0000) as u64
    }
}

// Optional columns.

/// What an optional instant is read from; `None` where the text is no instant.
pub open spec fn time_column(text: Option<Seq<char>>) -> Option<Option<int>> {
    match text {
        Some(t) => match time_value(t) {
            Some(instant) => Some(Some(instant)),
            None => None,
        },
        None => Some(None),
    }
}

/// An optional instant as a number.
pub open spec fn instant_of(instant: Option<i128>) -> Option<int> {
    match instant {
        Some(i) => Some(i as int),
        None => None,
    }
}

/// Reads an optional instant.
fn read_time(text: &Option<String>) -> (instant: Option<Option<i128>>)
    ensures
        match instant {
            Some(i) => time_column(text_of(*text)) == Some(instant_of(i)),
            None => time_column(text_of(*text)) is None,
        },
{
    match text {
        Some(t) => match parse_time(t.as_str()) {
            Some(instant) => Some(Some(instant)),
            None => None,
        },
        None => Some(None),
    }
}

/// Whether an optional instant lies in the calendar.
pub open spec fn calendar_column(instant: Option<i128>) -> bool {
    match instant {
        Some(i) => in_calendar(i as int),
        None => true,
    }
}

/// Whether an optional instant is read back from its text.
pub open spec fn writable_column(instant: Option<i128>) -> bool {
    match instant {
        Some(i) => writable(i as int),
        None => true,
    }
}

/// An optional instant as it is kept.
pub open spec fn time_form_of(instant: Option<i128>) -> Option<Seq<char>> {
    match instant {
        Some(i) => Some(time_form(i as int)),
        None => None,
    }
}

/// Writes an optional instant.
fn write_time(instant: Option<i128>) -> (text: Option<Option<String>>)
    ensures
        text is Some <==> calendar_column(instant),
        text is Some ==> text_of(text->0) == time_form_of(instant),
        writable_column(instant) ==> text is Some && time_column(text_of(text->0)) == Some(
            instant_of(instant),
        ),
{
    match instant {
        Some(i) => match time_text(i) {
            Some(t) => Some(Some(t)),
            None => None,
        },
        None => Some(None),
    }
}

/// What an optional identifier is read from; `None` where the text is no identifier.
pub open spec fn id_column(text: Option<Seq<char>>) -> Option<Option<u128>> {
    match text {
        Some(t) => match uuid_value(t) {
            Some(id) => Some(Some(id)),
            None => None,
        },
        None => Some(None),
    }
}

/// Reads an optional identifier.
fn read_id(text: &Option<String>) -> (id: Option<Option<u128>>)
    ensures
        id == id_column(text_of(*text)),
{
    match text {
        Some(t) => match parse_uuid(t.as_str()) {
            Some(id) => Some(Some(id)),
            None => None,
        },
        None => Some(None),
    }
}

// Participants.

/// A row of the table of participants.
#[derive(Debug)]
pub struct ParticipantRow {
    pub id: String,
    pub livekit_identity: String,
    pub nickname: String,
    pub role: String,
    pub created_at: String,
    pub last_seen_at: String,
}

/// Whether a row stands for a participant.
pub open spec fn is_participant_row(row: ParticipantRow, p: ParticipantModel) -> bool {
    &&& uuid_value(row.id@) == Some(p.id)
    &&& row.livekit_identity@ == p.livekit_identity
    &&& row.nickname@ == p.nickname
    &&& role_named(row.role@) == p.role
    &&& time_value(row.created_at@) == Some(p.created_at as int)
    &&& time_value(row.last_seen_at@) == Some(p.last_seen_at as int)
}

/// Reads a participant; `None` where an identifier or an instant cannot be read.
pub fn participant_from_row(row: &ParticipantRow) -> (participant: Option<Participant>)
    ensures
        participant is Some <==> uuid_value(row.id@) is Some && time_value(row.created_at@) is Some
            && time_value(row.last_seen_at@) is Some,
        participant is Some ==> is_participant_row(*row, participant->0@),
{
    let id = parse_uuid(row.id.as_str());
    let created = parse_time(row.created_at.as_str());
    let seen = parse_time(row.last_seen_at.as_str());
    match (id, created, seen) {
        (Some(id), Some(created_at), Some(last_seen_at)) => Some(
            Participant {
                id,
                livekit_identity: row.livekit_identity.clone(),
                nickname: row.nickname.clone(),
                role: role_from(row.role.as_str()),
                created_at,
                last_seen_at,
            },
        ),
        _ => None,
    }
}

/// The row of a participant.
pub open spec fn participant_written(row: ParticipantRow, p: ParticipantModel) -> bool {
    &&& row.id@ == hyphenated_text(p.id)
    &&& row.livekit_identity@ == p.livekit_identity
    &&& row.nickname@ == p.nickname
    &&& row.role@ == role_text(p.role)
    &&& row.created_at@ == time_form(p.created_at as int)
    &&& row.last_seen_at@ == time_form(p.last_seen_at as int)
}

/// Writes a participant; `None` where an instant lies outside the calendar. With instants of
/// the years 0 to 9999 it is read back as it was.
pub fn participant_row(participant: &Participant) -> (row: Option<ParticipantRow>)
    ensures
        row is Some <==> in_calendar(participant.created_at as int) && in_calendar(
            participant.last_seen_at as int,
        ),
        row is Some ==> participant_written(row->0, participant@),
        writable(participant.created_at as int) && writable(participant.last_seen_at as int) ==> row
            is Some && is_participant_row(row->0, participant@),
{
    let created = time_text(participant.created_at);
    let seen = time_text(participant.last_seen_at);
    proof {
        law_names_are_read_back(
            participant.role,
            RecordingStatus::Failed,
            TrackSegmentStatus::Failed,
            ConnectionState::Left,
        );
    }
    match (created, seen) {
        (Some(created_at), Some(last_seen_at)) => Some(
            ParticipantRow {
                id: uuid_text(participant.id),
                livekit_identity: participant.livekit_identity.clone(),
                nickname: participant.nickname.clone(),
                role: role_name(&participant.role).to_owned(),
                created_at,
                last_seen_at,
            },
        ),
        _ => None,
    }
}

// Credentials.

/// A row of the table of credentials.
#[derive(Debug)]
pub struct CredentialRow {
    pub participant_id: String,
    pub resume_token_hash: String,
    pub created_at: String,
    pub rotated_at: String,
}

/// Whether a row stands for a participant's credential.
pub open spec fn is_credential_row(row: CredentialRow, id: u128, c: CredentialModel) -> bool {
    &&& uuid_value(row.participant_id@) == Some(id)
    &&& row.resume_token_hash@ == c.resume_token_hash
    &&& time_value(row.created_at@) == Some(c.created_at as int)
    &&& time_value(row.rotated_at@) == Some(c.rotated_at as int)
}

/// Reads a credential; `None` where an identifier or an instant cannot be read.
pub fn credential_from_row(row: &CredentialRow) -> (credential: Option<(u128, Credential)>)
    ensures
        credential is Some <==> uuid_value(row.participant_id@) is Some && time_value(
            row.created_at@,
        ) is Some && time_value(row.rotated_at@) is Some,
        credential is Some ==> is_credential_row(*row, (credential->0).0, (credential->0).1@),
{
    let id = parse_uuid(row.participant_id.as_str());
    let created = parse_time(row.created_at.as_str());
    let rotated = parse_time(row.rotated_at.as_str());
    match (id, created, rotated) {
        (Some(id), Some(created_at), Some(rotated_at)) => Some(
            (
                id,
                Credential {
                    resume_token_hash: row.resume_token_hash.clone(),
                    created_at,
                    rotated_at,
                },
            ),
        ),
        _ => None,
    }
}

/// The row of a participant's credential.
pub open spec fn credential_written(row: CredentialRow, id: u128, c: CredentialModel) -> bool {
    &&& row.participant_id@ == hyphenated_text(id)
    &&& row.resume_token_hash@ == c.resume_token_hash
    &&& row.created_at@ == time_form(c.created_at as int)
    &&& row.rotated_at@ == time_form(c.rotated_at as int)
}

/// Writes a credential; `None` where an instant lies outside the calendar. With instants of
/// the years 0 to 9999 it is read back as it was.
pub fn credential_row(participant_id: u128, credential: &Credential) -> (row: Option<CredentialRow>)
    ensures
        row is Some <==> in_calendar(credential.created_at as int) && in_calendar(
            credential.rotated_at as int,
        ),
        row is Some ==> credential_written(row->0, participant_id, credential@),
        writable(credential.created_at as int) && writable(credential.rotated_at as int) ==> row
            is Some && is_credential_row(row->0, participant_id, credential@),
{
    let created = time_text(credential.created_at);
    let rotated = time_text(credential.rotated_at);
    match (created, rotated) {
        (Some(created_at), Some(rotated_at)) => Some(
            CredentialRow {
                participant_id: uuid_text(participant_id),
                resume_token_hash: credential.resume_token_hash.clone(),
                created_at,
                rotated_at,
            },
        ),
        _ => None,
    }
}

// Connections.

/// A row of the table of connections.
#[derive(Debug)]
pub struct ConnectionRow {
    pub participant_id: String,
    pub generation: String,
    pub livekit_participant_sid: Option<String>,
    pub state: String,
    pub reconnect_deadline: Option<String>,
    pub changed_at: String,
}

/// Whether a row stands for a participant's connection.
pub open spec fn is_connection_row(row: ConnectionRow, id: u128, c: ConnectionModel) -> bool {
    &&& uuid_value(row.participant_id@) == Some(id)
    &&& uuid_value(row.generation@) == Some(c.generation)
    &&& text_of(row.livekit_participant_sid) == c.livekit_participant_sid
    &&& connection_state_named(row.state@) == c.state
    &&& time_column(text_of(row.reconnect_deadline)) == Some(instant_of(c.reconnect_deadline))
    &&& time_value(row.changed_at@) == Some(c.changed_at as int)
}

/// Whether a row can be read as a connection.
pub open spec fn readable_connection(row: ConnectionRow) -> bool {
    &&& uuid_value(row.participant_id@) is Some
    &&& uuid_value(row.generation@) is Some
    &&& time_column(text_of(row.reconnect_deadline)) is Some
    &&& time_value(row.changed_at@) is Some
}

/// Reads a connection; `None` where an identifier or an instant cannot be read.
pub fn connection_from_row(row: &ConnectionRow) -> (connection: Option<(u128, Connection)>)
    ensures
        connection is Some <==> readable_connection(*row),
        connection is Some ==> is_connection_row(*row, (connection->0).0, (connection->0).1@),
{
    let id = parse_uuid(row.participant_id.as_str());
    let generation = parse_uuid(row.generation.as_str());
    let state = connection_state_from(row.state.as_str());
    let deadline = read_time(&row.reconnect_deadline);
    let changed = parse_time(row.changed_at.as_str());
    match (id, generation, deadline, changed) {
        (
            Some(id),
            Some(generation),
            Some(reconnect_deadline),
            Some(changed_at),
        ) => Some(
            (
                id,
                Connection {
                    generation,
                    livekit_participant_sid: clone_text(&row.livekit_participant_sid),
                    state,
                    reconnect_deadline,
                    changed_at,
                },
            ),
        ),
        _ => None,
    }
}

/// The row of a participant's connection.
pub open spec fn connection_written(row: ConnectionRow, id: u128, c: ConnectionModel) -> bool {
    &&& row.participant_id@ == hyphenated_text(id)
    &&& row.generation@ == hyphenated_text(c.generation)
    &&& text_of(row.livekit_participant_sid) == c.livekit_participant_sid
    &&& row.state@ == connection_state_text(c.state)
    &&& text_of(row.reconnect_deadline) == time_form_of(c.reconnect_deadline)
    &&& row.changed_at@ == time_form(c.changed_at as int)
}

/// Writes a connection; `None` where an instant lies outside the calendar. With instants of
/// the years 0 to 9999 it is read back as it was.
pub fn connection_row(participant_id: u128, connection: &Connection) -> (row: Option<ConnectionRow>)
    ensures
        row is Some <==> calendar_column(connection.reconnect_deadline) && in_calendar(
            connection.changed_at as int,
        ),
        row is Some ==> connection_written(row->0, participant_id, connection@),
        writable_column(connection.reconnect_deadline) && writable(connection.changed_at as int)
            ==> row is Some && is_connection_row(row->0, participant_id, connection@),
{
    let deadline = write_time(connection.reconnect_deadline);
    let changed = time_text(connection.changed_at);
    proof {
        law_names_are_read_back(
            ParticipantRole::Host,
            RecordingStatus::Failed,
            TrackSegmentStatus::Failed,
            connection.state,
        );
    }
    match (deadline, changed) {
        (Some(reconnect_deadline), Some(changed_at)) => Some(
            ConnectionRow {
                participant_id: uuid_text(participant_id),
                generation: uuid_text(connection.generation),
                livekit_participant_sid: clone_text(&connection.livekit_participant_sid),
                state: connection_state_name(&connection.state).to_owned(),
                reconnect_deadline,
                changed_at,
            },
        ),
        _ => None,
    }
}

// Room sessions.

/// A row of the table of room sessions.
#[derive(Debug)]
pub struct RoomSessionRow {
    pub id: String,
    pub generation: i64,
    pub state: String,
    pub host_participant_id: Option<String>,
    pub opened_at: String,
    pub closed_at: Option<String>,
}

/// Whether a row stands for a room session.
pub open spec fn is_session_row(row: RoomSessionRow, s: SessionRow) -> bool {
    &&& uuid_value(row.id@) == Some(s.session.id)
    &&& row.generation == s.session.generation
    &&& (row.state@ == "active"@) == s.active
    &&& id_column(text_of(row.host_participant_id)) == Some(s.session.host_participant_id)
    &&& time_value(row.opened_at@) == Some(s.opened_at as int)
    &&& time_column(text_of(row.closed_at)) == Some(instant_of(s.closed_at))
}

/// Whether a row can be read as a room session.
pub open spec fn readable_session(row: RoomSessionRow) -> bool {
    &&& uuid_value(row.id@) is Some
    &&& id_column(text_of(row.host_participant_id)) is Some
    &&& time_value(row.opened_at@) is Some
    &&& time_column(text_of(row.closed_at)) is Some
}

/// Reads a room session; `None` where an identifier or an instant cannot be read.
pub fn session_from_row(row: &RoomSessionRow) -> (session: Option<SessionRow>)
    ensures
        session is Some <==> readable_session(*row),
        session is Some ==> is_session_row(*row, session->0),
{
    let id = parse_uuid(row.id.as_str());
    let host = read_id(&row.host_participant_id);
    let opened = parse_time(row.opened_at.as_str());
    let closed = read_time(&row.closed_at);
    match (id, host, opened, closed) {
        (Some(id), Some(host_participant_id), Some(opened_at), Some(closed_at)) => Some(
            SessionRow {
                session: RoomSession { id, generation: row.generation, host_participant_id },
                active: same_text(row.state.as_str(), "active"),
                opened_at,
                closed_at,
            },
        ),
        _ => None,
    }
}

/// The row of a room session.
pub open spec fn session_written(row: RoomSessionRow, s: SessionRow) -> bool {
    &&& row.id@ == hyphenated_text(s.session.id)
    &&& row.generation == s.session.generation
    &&& row.state@ == if s.active {
        "active"@
    } else {
        "closed"@
    }
    &&& text_of(row.host_participant_id) == match s.session.host_participant_id {
        Some(host) => Some(hyphenated_text(host)),
        None => None,
    }
    &&& row.opened_at@ == time_form(s.opened_at as int)
    &&& text_of(row.closed_at) == time_form_of(s.closed_at)
}

/// Writes a room session; `None` where an instant lies outside the calendar. With instants of
/// the years 0 to 9999 it is read back as it was.
pub fn session_row(session: &SessionRow) -> (row: Option<RoomSessionRow>)
    ensures
        row is Some <==> in_calendar(session.opened_at as int) && calendar_column(
            session.closed_at,
        ),
        row is Some ==> session_written(row->0, *session),
        writable(session.opened_at as int) && writable_column(session.closed_at) ==> row is Some
            && is_session_row(row->0, *session),
{
    let opened = time_text(session.opened_at);
    let closed = write_time(session.closed_at);
    proof {
        reveal_strlit("active");
        reveal_strlit("closed");
        assert("active"@[0] != "closed"@[0]);
    }
    match (opened, closed) {
        (Some(opened_at), Some(closed_at)) => Some(
            RoomSessionRow {
                id: uuid_text(session.session.id),
                generation: session.session.generation,
                state: if session.active {
                    "active".to_owned()
                } else {
                    "closed".to_owned()
                },
                host_participant_id: match session.session.host_participant_id {
                    Some(host) => Some(uuid_text(host)),
                    None => None,
                },
                opened_at,
                closed_at,
            },
        ),
        _ => None,
    }
}

// Recordings.

/// A row of the table of recordings.
#[derive(Debug)]
pub struct RecordingRow {
    pub id: String,
    pub status: String,
    pub started_at_utc: String,
    pub stopped_at_utc: Option<String>,
    pub sample_rate: u32,
    pub channels: u16,
    pub sample_format: String,
    pub output_dir: String,
    pub version: i64,
}

/// Whether a row stands for a recording.
pub open spec fn is_recording_row(row: RecordingRow, r: RecordingModel) -> bool {
    &&& uuid_value(row.id@) == Some(r.id)
    &&& status_named(row.status@) == r.status
    &&& time_value(row.started_at_utc@) == Some(r.started_at_utc as int)
    &&& time_column(text_of(row.stopped_at_utc)) == Some(instant_of(r.stopped_at_utc))
    &&& row.sample_rate == r.target_sample_rate
    &&& row.channels == r.target_channels
    &&& row.sample_format@ == r.target_sample_format
    &&& row.output_dir@ == r.output_dir
    &&& row.version == r.version
}

/// Reads a recording; `None` where the identifier or an instant cannot be read.
pub fn recording_from_row(row: &RecordingRow) -> (recording: Option<RecordingSession>)
    ensures
        recording is Some <==> uuid_value(row.id@) is Some && time_value(
            row.started_at_utc@,
        ) is Some && time_column(text_of(row.stopped_at_utc)) is Some,
        recording is Some ==> is_recording_row(*row, recording->0@),
{
    let id = parse_uuid(row.id.as_str());
    let started = parse_time(row.started_at_utc.as_str());
    let stopped = read_time(&row.stopped_at_utc);
    match (id, started, stopped) {
        (Some(id), Some(started_at_utc), Some(stopped_at_utc)) => Some(
            RecordingSession {
                id,
                status: status_from(row.status.as_str()),
                started_at_utc,
                stopped_at_utc,
                target_sample_rate: row.sample_rate,
                target_channels: row.channels,
                target_sample_format: row.sample_format.clone(),
                output_dir: row.output_dir.clone(),
                version: row.version,
            },
        ),
        _ => None,
    }
}

/// The row of a recording.
pub open spec fn recording_written(row: RecordingRow, r: RecordingModel) -> bool {
    &&& row.id@ == hyphenated_text(r.id)
    &&& row.status@ == status_text(r.status)
    &&& row.started_at_utc@ == time_form(r.started_at_utc as int)
    &&& text_of(row.stopped_at_utc) == time_form_of(r.stopped_at_utc)
    &&& row.sample_rate == r.target_sample_rate
    &&& row.channels == r.target_channels
    &&& row.sample_format@ == r.target_sample_format
    &&& row.output_dir@ == r.output_dir
    &&& row.version == r.version
}

/// Writes a recording; `None` where an instant lies outside the calendar. With instants of
/// the years 0 to 9999 it is read back as it was.
pub fn recording_row(recording: &RecordingSession) -> (row: Option<RecordingRow>)
    ensures
        row is Some <==> in_calendar(recording.started_at_utc as int) && calendar_column(
            recording.stopped_at_utc,
        ),
        row is Some ==> recording_written(row->0, recording@),
        writable(recording.started_at_utc as int) && writable_column(recording.stopped_at_utc)
            ==> row is Some && is_recording_row(row->0, recording@),
{
    let started = time_text(recording.started_at_utc);
    let stopped = write_time(recording.stopped_at_utc);
    proof {
        law_names_are_read_back(
            ParticipantRole::Host,
            recording.status,
            TrackSegmentStatus::Failed,
            ConnectionState::Left,
        );
    }
    match (started, stopped) {
        (Some(started_at_utc), Some(stopped_at_utc)) => Some(
            RecordingRow {
                id: uuid_text(recording.id),
                status: status_name(&recording.status).to_owned(),
                started_at_utc,
                stopped_at_utc,
                sample_rate: recording.target_sample_rate,
                channels: recording.target_channels,
                sample_format: recording.target_sample_format.clone(),
                output_dir: recording.output_dir.clone(),
                version: recording.version,
            },
        ),
        _ => None,
    }
}

// Segments.

/// A row of the table of segments.
#[derive(Debug)]
pub struct TrackSegmentRow {
    pub id: String,
    pub recording_id: String,
    pub participant_id: String,
    pub track_sid: String,
    pub segment_index: u32,
    pub first_frame_at_ns: i64,
    pub last_frame_at_ns: Option<i64>,
    pub timeline_start_sample: i64,
    pub sample_count: i64,
    pub pcm_path: String,
    pub status: String,
    pub egress_id: Option<String>,
}

/// What an optional signed column stands for.
pub open spec fn unsigned_column(column: Option<i64>) -> Option<int> {
    match column {
        Some(v) => Some(unsigned(v)),
        None => None,
    }
}

/// Whether a row stands for a segment.
pub open spec fn is_segment_row(row: TrackSegmentRow, s: SegmentRowModel) -> bool {
    &&& uuid_value(row.id@) == Some(s.segment.id)
    &&& uuid_value(row.recording_id@) == Some(s.segment.recording_id)
    &&& uuid_value(row.participant_id@) == Some(s.segment.participant_id)
    &&& row.track_sid@ == s.segment.livekit_track_sid
    &&& row.segment_index == s.segment.segment_index
    &&& unsigned(row.first_frame_at_ns) == s.segment.first_frame_at_ns
    &&& unsigned_column(row.last_frame_at_ns) == match s.segment.last_frame_at_ns {
        Some(v) => Some(v as int),
        None => None,
    }
    &&& unsigned(row.timeline_start_sample) == s.segment.timeline_start_sample
    &&& unsigned(row.sample_count) == s.segment.sample_count
    &&& row.pcm_path@ == s.segment.pcm_path
    &&& segment_status_named(row.status@) == s.segment.status
    &&& text_of(row.egress_id) == s.egress_id
}

/// Reads a segment; `None` where an identifier cannot be read.
pub fn segment_from_row(row: &TrackSegmentRow) -> (segment: Option<SegmentRow>)
    ensures
        segment is Some <==> uuid_value(row.id@) is Some && uuid_value(row.recording_id@) is Some
            && uuid_value(row.participant_id@) is Some,
        segment is Some ==> is_segment_row(*row, segment->0@),
{
    let id = parse_uuid(row.id.as_str());
    let recording = parse_uuid(row.recording_id.as_str());
    let participant = parse_uuid(row.participant_id.as_str());
    match (id, recording, participant) {
        (Some(id), Some(recording_id), Some(participant_id)) => Some(
            SegmentRow {
                segment: TrackSegment {
                    id,
                    recording_id,
                    participant_id,
                    livekit_track_sid: row.track_sid.clone(),
                    segment_index: row.segment_index,
                    first_frame_at_ns: to_unsigned(row.first_frame_at_ns),
                    last_frame_at_ns: match row.last_frame_at_ns {
                        Some(v) => Some(to_unsigned(v)),
                        None => None,
                    },
                    timeline_start_sample: to_unsigned(row.timeline_start_sample),
                    sample_count: to_unsigned(row.sample_count),
                    pcm_path: row.pcm_path.clone(),
                    status: segment_status_from(row.status.as_str()),
                },
                egress_id: clone_text(&row.egress_id),
            },
        ),
        _ => None,
    }
}

/// The row of a segment.
pub open spec fn segment_written(row: TrackSegmentRow, s: SegmentRowModel) -> bool {
    &&& row.id@ == hyphenated_text(s.segment.id)
    &&& row.recording_id@ == hyphenated_text(s.segment.recording_id)
    &&& row.participant_id@ == hyphenated_text(s.segment.participant_id)
    &&& row.track_sid@ == s.segment.livekit_track_sid
    &&& row.segment_index == s.segment.segment_index
    &&& row.first_frame_at_ns == signed(s.segment.first_frame_at_ns)
    &&& row.last_frame_at_ns is Some <==> s.segment.last_frame_at_ns is Some
    &&& s.segment.last_frame_at_ns matches Some(last) ==> row.last_frame_at_ns->0 == signed(last)
    &&& row.timeline_start_sample == signed(s.segment.timeline_start_sample)
    &&& row.sample_count == signed(s.segment.sample_count)
    &&& row.pcm_path@ == s.segment.pcm_path
    &&& row.status@ == segment_status_text(s.segment.status)
    &&& text_of(row.egress_id) == s.egress_id
}

/// Writes a segment. What is written is read back as it was.
pub fn segment_row(segment: &SegmentRow) -> (row: TrackSegmentRow)
    ensures
        is_segment_row(row, segment@),
        segment_written(row, segment@),
{
    proof {
        law_names_are_read_back(
            ParticipantRole::Host,
            RecordingStatus::Failed,
            segment.segment.status,
            ConnectionState::Left,
        );
    }
    TrackSegmentRow {
        id: uuid_text(segment.segment.id),
        recording_id: uuid_text(segment.segment.recording_id),
        participant_id: uuid_text(segment.segment.participant_id),
        track_sid: segment.segment.livekit_track_sid.clone(),
        segment_index: segment.segment.segment_index,
        first_frame_at_ns: to_signed(segment.segment.first_frame_at_ns),
        last_frame_at_ns: match segment.segment.last_frame_at_ns {
            Some(v) => Some(to_signed(v)),
            None => None,
        },
        timeline_start_sample: to_signed(segment.segment.timeline_start_sample),
        sample_count: to_signed(segment.segment.sample_count),
        pcm_path: segment.segment.pcm_path.clone(),
        status: segment_status_name(&segment.segment.status).to_owned(),
        egress_id: clone_text(&segment.egress_id),
    }
}

/// A row stands for one participant at most: what is read is what was written.
pub proof fn law_participant_row_is_unambiguous(
    row: ParticipantRow,
    p: ParticipantModel,
    q: ParticipantModel,
)
    requires
        is_participant_row(row, p),
        is_participant_row(row, q),
    ensures
        p == q,
{
}

/// A row stands for one credential at most.
pub proof fn law_credential_row_is_unambiguous(
    row: CredentialRow,
    id: u128,
    c: CredentialModel,
    other: u128,
    d: CredentialModel,
)
    requires
        is_credential_row(row, id, c),
        is_credential_row(row, other, d),
    ensures
        id == other,
        c == d,
{
}

/// A row stands for one connection at most.
pub proof fn law_connection_row_is_unambiguous(
    row: ConnectionRow,
    id: u128,
    c: ConnectionModel,
    other: u128,
    d: ConnectionModel,
)
    requires
        is_connection_row(row, id, c),
        is_connection_row(row, other, d),
    ensures
        id == other,
        c == d,
{
}

/// A row stands for one room session at most.
pub proof fn law_session_row_is_unambiguous(row: RoomSessionRow, s: SessionRow, t: SessionRow)
    requires
        is_session_row(row, s),
        is_session_row(row, t),
    ensures
        s == t,
{
    assert(s.session =~= t.session);
    assert(s.closed_at == t.closed_at);
}

/// A row stands for one recording at most.
pub proof fn law_recording_row_is_unambiguous(row: RecordingRow, r: RecordingModel, u: RecordingModel)
    requires
        is_recording_row(row, r),
        is_recording_row(row, u),
    ensures
        r == u,
{
}

/// A row stands for one segment at most.
pub proof fn law_segment_row_is_unambiguous(
    row: TrackSegmentRow,
    a: SegmentRowModel,
    b: SegmentRowModel,
)
    requires
        is_segment_row(row, a),
        is_segment_row(row, b),
    ensures
        a == b,
{
    assert(a.segment =~= b.segment);
}

/// Which name stands for what. A name that stands for nothing is taken for a participant, for
/// a recording or a segment that failed, and for a connection that is offline.
pub proof fn law_what_names_stand_for(
    name: Seq<char>,
    role: ParticipantRole,
    status: RecordingStatus,
    segment_status: TrackSegmentStatus,
    state: ConnectionState,
)
    ensures
        role_named(name) is Host <==> name == "host"@,
        role is Participant ==> role_text(role) == "participant"@,
        status_named(name) is Starting <==> name == "starting"@,
        status_named(name) is Recording <==> name == "recording"@,
        status_named(name) is Stopping <==> name == "stopping"@,
        status_named(name) is Completed <==> name == "completed"@,
        status is Failed ==> status_text(status) == "failed"@,
        segment_status_named(name) is Opening <==> name == "opening"@,
        segment_status_named(name) is Writing <==> name == "writing"@,
        segment_status_named(name) is Closed <==> name == "closed"@,
        segment_status is Failed ==> segment_status_text(segment_status) == "failed"@,
        connection_state_named(name) is Connecting <==> name == "connecting"@,
        connection_state_named(name) is Online <==> name == "online"@,
        connection_state_named(name) is Reconnecting <==> name == "reconnecting"@,
        connection_state_named(name) is Left <==> name == "left"@,
        state is Offline ==> connection_state_text(state) == "offline"@,
{
    law_names_are_read_back(
        ParticipantRole::Host,
        RecordingStatus::Starting,
        TrackSegmentStatus::Opening,
        ConnectionState::Connecting,
    );
    law_names_are_read_back(
        ParticipantRole::Host,
        RecordingStatus::Recording,
        TrackSegmentStatus::Writing,
        ConnectionState::Online,
    );
    law_names_are_read_back(
        ParticipantRole::Host,
        RecordingStatus::Stopping,
        TrackSegmentStatus::Closed,
        ConnectionState::Reconnecting,
    );
    law_names_are_read_back(
        ParticipantRole::Host,
        RecordingStatus::Completed,
        TrackSegmentStatus::Closed,
        ConnectionState::Left,
    );
}

/// A signed column holds an unsigned number by its 64 bits: the two differ by nothing, or by as
/// much as 64 bits can count.
pub proof fn law_signed_columns_keep_the_bits(value: u64, column: i64)
    ensures
        -0x8000_0000_0000_0000 <= signed(value) < 0x8000_0000_0000_0000,
        signed(value) == value || signed(value) == value - 0x1_0000_0000_0000_0000,
        0 <= unsigned(column) < 0x1_0000_0000_0000_0000,
        unsigned(column) == column || unsigned(column) == column + 0x1_0000_0000_0000_0000,
{
}

/// Each column of a row that is read gives what its name says: of a participant, a connection
/// and a credential.
pub proof fn law_what_columns_of_people_hold(
    row: ParticipantRow,
    p: ParticipantModel,
    connection: ConnectionRow,
    owner: u128,
    c: ConnectionModel,
    credential: CredentialRow,
    holder: u128,
    d: CredentialModel,
)
    requires
        is_participant_row(row, p),
        is_connection_row(connection, owner, c),
        is_credential_row(credential, holder, d),
    ensures
        uuid_value(row.id@) == Some(p.id),
        row.livekit_identity@ == p.livekit_identity,
        row.nickname@ == p.nickname,
        p.role is Host <==> row.role@ == "host"@,
        time_value(row.created_at@) == Some(p.created_at as int),
        time_value(row.last_seen_at@) == Some(p.last_seen_at as int),
        uuid_value(connection.participant_id@) == Some(owner),
        uuid_value(connection.generation@) == Some(c.generation),
        connection.livekit_participant_sid is Some <==> c.livekit_participant_sid is Some,
        c.livekit_participant_sid is Some ==> connection.livekit_participant_sid->0@
            == c.livekit_participant_sid->0,
        connection_state_named(connection.state@) == c.state,
        connection.reconnect_deadline is Some <==> c.reconnect_deadline is Some,
        c.reconnect_deadline is Some ==> time_value(connection.reconnect_deadline->0@) == Some(
            c.reconnect_deadline->0 as int,
        ),
        time_value(connection.changed_at@) == Some(c.changed_at as int),
        uuid_value(credential.participant_id@) == Some(holder),
        credential.resume_token_hash@ == d.resume_token_hash,
        time_value(credential.created_at@) == Some(d.created_at as int),
        time_value(credential.rotated_at@) == Some(d.rotated_at as int),
{
}

/// Each column of a row that is read gives what its name says: of a room session, a recording
/// and a segment.
pub proof fn law_what_columns_of_recordings_hold(
    session: RoomSessionRow,
    s: SessionRow,
    recording: RecordingRow,
    r: RecordingModel,
    segment: TrackSegmentRow,
    t: SegmentRowModel,
)
    requires
        is_session_row(session, s),
        is_recording_row(recording, r),
        is_segment_row(segment, t),
    ensures
        uuid_value(session.id@) == Some(s.session.id),
        session.generation == s.session.generation,
        s.active <==> session.state@ == "active"@,
        session.host_participant_id is Some <==> s.session.host_participant_id is Some,
        s.session.host_participant_id is Some ==> uuid_value(session.host_participant_id->0@)
            == s.session.host_participant_id,
        time_value(session.opened_at@) == Some(s.opened_at as int),
        session.closed_at is Some <==> s.closed_at is Some,
        s.closed_at is Some ==> time_value(session.closed_at->0@) == Some(s.closed_at->0 as int),
        uuid_value(recording.id@) == Some(r.id),
        status_named(recording.status@) == r.status,
        time_value(recording.started_at_utc@) == Some(r.started_at_utc as int),
        recording.stopped_at_utc is Some <==> r.stopped_at_utc is Some,
        r.stopped_at_utc is Some ==> time_value(recording.stopped_at_utc->0@) == Some(
            r.stopped_at_utc->0 as int,
        ),
        recording.sample_rate == r.target_sample_rate,
        recording.channels == r.target_channels,
        recording.sample_format@ == r.target_sample_format,
        recording.output_dir@ == r.output_dir,
        recording.version == r.version,
        uuid_value(segment.id@) == Some(t.segment.id),
        uuid_value(segment.recording_id@) == Some(t.segment.recording_id),
        uuid_value(segment.participant_id@) == Some(t.segment.participant_id),
        segment.track_sid@ == t.segment.livekit_track_sid,
        segment.segment_index == t.segment.segment_index,
        (t.segment.first_frame_at_ns - segment.first_frame_at_ns) % 0x1_0000_0000_0000_0000 == 0,
        segment.last_frame_at_ns is Some <==> t.segment.last_frame_at_ns is Some,
        t.segment.last_frame_at_ns is Some ==> (t.segment.last_frame_at_ns->0
            - segment.last_frame_at_ns->0) % 0x1_0000_0000_0000_0000 == 0,
        (t.segment.timeline_start_sample - segment.timeline_start_sample) % 0x1_0000_0000_0000_0000
            == 0,
        (t.segment.sample_count - segment.sample_count) % 0x1_0000_0000_0000_0000 == 0,
        segment.pcm_path@ == t.segment.pcm_path,
        segment_status_named(segment.status@) == t.segment.status,
        segment.egress_id is Some <==> t.egress_id is Some,
        t.egress_id is Some ==> segment.egress_id->0@ == t.egress_id->0,
{
}

/// Which rows of connections and room sessions can be read: those whose identifiers and instants
/// are some; a column that may be empty may be so.
pub proof fn law_which_rows_can_be_read(
    connection: ConnectionRow,
    session: RoomSessionRow,
    instant: Option<i128>,
)
    ensures
        readable_connection(connection) <==> {
            &&& uuid_value(connection.participant_id@) is Some
            &&& uuid_value(connection.generation@) is Some
            &&& connection.reconnect_deadline is Some ==> time_value(
                connection.reconnect_deadline->0@,
            ) is Some
            &&& time_value(connection.changed_at@) is Some
        },
        readable_session(session) <==> {
            &&& uuid_value(session.id@) is Some
            &&& session.host_participant_id is Some ==> uuid_value(
                session.host_participant_id->0@,
            ) is Some
            &&& time_value(session.opened_at@) is Some
            &&& session.closed_at is Some ==> time_value(session.closed_at->0@) is Some
        },
        instant is None ==> calendar_column(instant) && writable_column(instant),
        instant is Some ==> calendar_column(instant) == in_calendar(instant->0 as int)
            && writable_column(instant) == writable(instant->0 as int),
{
}

} // verus!
