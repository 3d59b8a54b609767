//! The store of participants, connections, room sessions, recordings and
//! segments, held in memory.

use vstd::prelude::*;

use crate::clock::MAX_INSTANT;
use crate::domain::{
    present, Connection, ConnectionModel, ConnectionState, Credential, Participant,
    ParticipantModel, ParticipantRole, ParticipantView, RecordingRoom,
    RecordingSession, RecordingStatus, RoomSession, SegmentRow, SegmentRowModel, SessionRow,
    TrackSegment, TrackSegmentStatus,
};
use crate::model::{StoreError, StoreModel, CONNECT_GRACE_NS, HOST_GRACE_NS};
use crate::order::{sort_order, SortKey};
use crate::table::Table;
use crate::text::same_text;

verus! {

/// What the records of a list hold.
pub open spec fn views<T: View>(records: Seq<T>) -> Seq<T::V> {
    records.map_values(|r: T| r@)
}

/// An instant after which there is room for every grace period.
pub open spec fn schedulable(now: i128) -> bool {
    0 <= now <= MAX_INSTANT - HOST_GRACE_NS
}

/// Whether every grace period that starts now ends within the calendar.
pub fn is_schedulable(now: i128) -> (yes: bool)
    ensures
        yes == schedulable(now),
{
    0 <= now && now <= MAX_INSTANT - HOST_GRACE_NS
}

/// The records of the server.
#[derive(Debug)]
pub struct Store {
    participants: Table<Participant>,
    credentials: Table<Credential>,
    connections: Table<Connection>,
    sessions: Table<SessionRow>,
    recordings: Table<RecordingSession>,
    recording_rooms: Table<RecordingRoom>,
    segments: Table<SegmentRow>,
    webhooks: Vec<String>,
    empty_since: Option<i128>,
    host_credential: Option<(u128, String)>,
}

impl View for Store {
    type V = StoreModel;

    closed spec fn view(&self) -> StoreModel {
        StoreModel {
            participants: self.participants@,
            credentials: self.credentials@,
            connections: self.connections@,
            sessions: self.sessions@,
            recordings: self.recordings@,
            recording_rooms: self.recording_rooms@,
            segments: self.segments@,
            webhooks: Set::new(|id: Seq<char>| views(self.webhooks@).contains(id)),
            empty_since: self.empty_since,
            host_credential: match self.host_credential {
                Some((id, hash)) => Some((id, hash@)),
                None => None,
            },
        }
    }
}

impl Store {
    /// The tables are sound.
    pub closed spec fn tables_sound(&self) -> bool {
        &&& self.participants.wf()
        &&& self.credentials.wf()
        &&& self.connections.wf()
        &&& self.sessions.wf()
        &&& self.recordings.wf()
        &&& self.recording_rooms.wf()
        &&& self.segments.wf()
    }

    /// What holds of the store at all times.
    pub open spec fn wf(&self) -> bool {
        self.tables_sound() && self@.wf()
    }

    /// An empty store.
    pub fn new() -> (store: Store)
        ensures
            store.wf(),
            store@ == StoreModel::fresh(),
    {
        let store = Store {
            participants: Table::new(),
            credentials: Table::new(),
            connections: Table::new(),
            sessions: Table::new(),
            recordings: Table::new(),
            recording_rooms: Table::new(),
            segments: Table::new(),
            webhooks: Vec::new(),
            empty_since: None,
            host_credential: None,
        };
        proof {
            assert(store@.webhooks =~= Set::empty());
        }
        store
    }

    // Room sessions.

    /// Where the active session stands.
    fn active_position(&self) -> (at: Option<usize>)
        requires
            self.wf(),
        ensures
            match at {
                Some(i) => {
                    &&& i < self@.sessions.keys.len()
                    &&& self@.is_active(self@.sessions.keys[i as int])
                    &&& self@.active_session() == Some(
                        self@.sessions.map[self@.sessions.keys[i as int]].session,
                    )
                },
                None => self@.active_session() is None,
            },
    {
        let count: usize = self.sessions.len();
        let mut i: usize = 0;
        while i < count
            invariant
                self.wf(),
                count == self@.sessions.keys.len(),
                i <= count,
                forall|j: int| 0 <= j < i ==> !self@.is_active(#[trigger] self@.sessions.keys[j]),
            decreases count - i,
        {
            let row = *self.sessions.value_at(i);
            if row.active {
                proof {
                    let key = self@.sessions.keys[i as int];
                    assert(self@.sessions.keys.contains(key));
                    assert(self@.is_active(key));
                    let chosen = choose|id: u128| crate::model::row_active(self@.sessions, id);
                    assert(self@.is_active(chosen));
                    assert(self@.sessions.map[chosen].active && self@.sessions.map[key].active);
                    assert(chosen == key);
                }
                return Some(i);
            }
            i += 1;
        }
        proof {
            assert forall|id: u128| !self@.is_active(id) by {
                if self@.is_active(id) {
                    assert(self@.sessions.keys.contains(id));
                    let j = choose|j: int|
                        0 <= j < self@.sessions.keys.len() && self@.sessions.keys[j] == id;
                    assert(!self@.is_active(self@.sessions.keys[j]));
                }
            }
        }
        None
    }

    /// The active room session.
    pub fn active_room_session(&self) -> (session: Option<RoomSession>)
        requires
            self.wf(),
        ensures
            session == self@.active_session(),
    {
        match self.active_position() {
            Some(i) => Some(self.sessions.value_at(i).session),
            None => None,
        }
    }

    /// The host of the active room session.
    pub fn room_host(&self) -> (host: Option<u128>)
        requires
            self.wf(),
        ensures
            host == self@.room_host(),
    {
        match self.active_room_session() {
            Some(session) => session.host_participant_id,
            None => None,
        }
    }

    /// The greatest generation so far.
    fn top(&self) -> (top: i64)
        requires
            self.wf(),
        ensures
            top == crate::model::top_generation(self@.sessions.list()),
    {
        let count: usize = self.sessions.len();
        let mut top: i64 = 0;
        let mut i: usize = 0;
        while i < count
            invariant
                self.wf(),
                count == self@.sessions.keys.len(),
                i <= count,
                top == crate::model::top_generation(self@.sessions.list().take(i as int)),
            decreases count - i,
        {
            let generation: i64 = self.sessions.value_at(i).session.generation;
            proof {
                let list = self@.sessions.list();
                assert(list.take(i + 1).drop_last() =~= list.take(i as int));
                assert(list.take(i + 1).last() == list[i as int]);
                if i == 0 {
                    assert(list.take(1)[0] == list[0]);
                }
            }
            if i == 0 || generation > top {
                top = generation;
            }
            i += 1;
        }
        proof {
            assert(self@.sessions.list().take(count as int) =~= self@.sessions.list());
        }
        top
    }

    /// The active room session; where there is none, a new one under `id` with
    /// the next generation.
    pub fn ensure_active_room_session(&mut self, id: u128, now: i128) -> (session: Result<
        RoomSession,
        StoreError,
    >)
        requires
            old(self).wf(),
        ensures
            final(self).wf(),
            (final(self)@, session) == old(self)@.ensured(id, now),
    {
        if let Some(session) = self.active_room_session() {
            return Ok(session);
        }
        let top: i64 = self.top();
        if top == i64::MAX {
            return Err(StoreError::GenerationsExhausted);
        }
        if let Some(_) = self.sessions.get(id) {
            return Err(StoreError::IdTaken);
        }
        let session = RoomSession { id, generation: top + 1, host_participant_id: None };
        let ghost before = self@;
        self.sessions.put(
            id,
            SessionRow { session, active: true, opened_at: now, closed_at: None },
        );
        proof {
            crate::model::lemma_opened_wf(before, id, now);
            assert(self@ =~= before.ensured(id, now).0);
        }
        Ok(session)
    }

    /// Gives a participant another role.
    fn set_role(&mut self, id: u128, role: ParticipantRole)
        requires
            old(self).wf(),
        ensures
            final(self).wf(),
            final(self)@ == old(self)@.with_role(id, role),
    {
        match self.participants.get(id) {
            Some(found) => {
                let mut participant = found.clone();
                participant.role = role;
                self.participants.put(id, participant);
                assert(self@ =~= old(self)@.with_role(id, role));
            },
            None => {},
        }
    }

    /// Makes a participant host of the active room session if it has no host;
    /// says whether it did. A session is opened first where there is none.
    pub fn claim_session_host(&mut self, participant_id: u128, session_id: u128, now: i128) -> (claimed:
        Result<bool, StoreError>)
        requires
            old(self).wf(),
        ensures
            final(self).wf(),
            (final(self)@, claimed) == old(self)@.claimed(participant_id, session_id, now),
    {
        let session = match self.ensure_active_room_session(session_id, now) {
            Ok(session) => session,
            Err(e) => {
                return Err(e);
            },
        };
        proof {
            crate::model::lemma_ensured_is_active(old(self)@, session_id, now);
        }
        if session.host_participant_id.is_some() {
            return Ok(false);
        }
        let ghost before = self@;
        let position = self.active_position();
        match position {
            Some(i) => {
                let mut row = *self.sessions.value_at(i);
                row.session.host_participant_id = Some(participant_id);
                self.sessions.replace_at(i, row);
                proof {
                    assert(self@ =~= (StoreModel {
                        sessions: before.sessions.put(session.id, row),
                        ..before
                    }));
                    crate::model::lemma_session_update_wf(before, session.id, row);
                }
                self.set_role(participant_id, ParticipantRole::Host);
                Ok(true)
            },
            None => Ok(false),
        }
    }

    /// Closes the active room session and releases its host, if nobody is in the room.
    pub fn close_active_room_session_if_empty(&mut self, now: i128) -> (closed: Option<RoomSession>)
        requires
            old(self).wf(),
        ensures
            final(self).wf(),
            (final(self)@, closed) == old(self)@.closed_if_empty(now),
    {
        if self.is_occupied() {
            return None;
        }
        match self.active_position() {
            Some(i) => {
                let mut row = *self.sessions.value_at(i);
                let session = row.session;
                let ghost before = self@;
                row.active = false;
                row.closed_at = Some(now);
                self.sessions.replace_at(i, row);
                proof {
                    assert(self@ =~= (StoreModel {
                        sessions: before.sessions.put(session.id, row),
                        ..before
                    }));
                    crate::model::lemma_session_update_wf(before, session.id, row);
                }
                if let Some(host) = session.host_participant_id {
                    self.set_role(host, ParticipantRole::Participant);
                }
                Some(session)
            },
            None => None,
        }
    }

    /// Whether somebody is in the room.
    pub fn is_occupied(&self) -> (yes: bool)
        requires
            self.wf(),
        ensures
            yes == self@.occupied(),
            yes == (self@.present_count() > 0),
    {
        let count: u64 = self.present_count();
        proof {
            crate::model::lemma_occupied(self@);
        }
        count > 0
    }

    /// How many connections hold a place in the room.
    pub fn present_count(&self) -> (count: u64)
        requires
            self.wf(),
        ensures
            count == self@.present_count(),
    {
        let total: usize = self.connections.len();
        let ghost list = self@.connections.list();
        let ghost p = |c: ConnectionModel| crate::domain::is_present(c.state);
        let mut found: u64 = 0;
        let mut i: usize = 0;
        while i < total
            invariant
                self.wf(),
                total == list.len(),
                list == self@.connections.list(),
                p == (|c: ConnectionModel| crate::domain::is_present(c.state)),
                i <= total,
                found == list.take(i as int).filter(p).len(),
                found <= i,
            decreases total - i,
        {
            let state = self.connections.value_at(i).state;
            proof {
                reveal(Seq::filter);
                assert(list.take(i + 1).drop_last() =~= list.take(i as int));
                assert(list.take(i + 1).last() == list[i as int]);
                assert(p(list[i as int]) == crate::domain::is_present(list[i as int].state));
            }
            if present(state) {
                found += 1;
            }
            i += 1;
        }
        proof {
            assert(list.take(total as int) =~= list);
        }
        found
    }

    // Participants and their connections.

    /// The participant with this identifier.
    pub fn participant(&self, id: u128) -> (found: Option<Participant>)
        requires
            self.wf(),
        ensures
            match found {
                Some(p) => self@.participants.get(id) == Some(p@),
                None => self@.participants.get(id) is None,
            },
    {
        match self.participants.get(id) {
            Some(p) => Some(p.clone()),
            None => None,
        }
    }

    /// Adds a participant; of one that is known the nickname, the role and the last
    /// visit are replaced.
    pub fn upsert_participant(&mut self, participant: &Participant)
        requires
            old(self).wf(),
        ensures
            final(self).wf(),
            final(self)@ == old(self)@.upserted(participant@),
    {
        let mut row = participant.clone();
        if let Some(known) = self.participants.get(participant.id) {
            row.livekit_identity = known.livekit_identity.clone();
            row.created_at = known.created_at;
        }
        self.participants.put(participant.id, row);
        assert(self@ =~= old(self)@.upserted(participant@));
    }

    /// Replaces the hash of a participant's resume token.
    pub fn set_resume_credential(&mut self, participant_id: u128, hash: &str, now: i128)
        requires
            old(self).wf(),
        ensures
            final(self).wf(),
            final(self)@ == old(self)@.with_credential(participant_id, hash@, now),
    {
        let created_at: i128 = match self.credentials.get(participant_id) {
            Some(known) => known.created_at,
            None => now,
        };
        self.credentials.put(
            participant_id,
            Credential { resume_token_hash: hash.to_owned(), created_at, rotated_at: now },
        );
        assert(self@ =~= old(self)@.with_credential(participant_id, hash@, now));
    }

    /// The hash of a participant's resume token.
    pub fn resume_credential(&self, participant_id: u128) -> (hash: Option<String>)
        requires
            self.wf(),
        ensures
            match hash {
                Some(h) => self@.credentials.has(participant_id)
                    && self@.credentials.map[participant_id].resume_token_hash == h@,
                None => !self@.credentials.has(participant_id),
            },
    {
        match self.credentials.get(participant_id) {
            Some(known) => Some(known.resume_token_hash.clone()),
            None => None,
        }
    }

    /// A participant's credential record.
    pub fn credential(&self, participant_id: u128) -> (found: Option<Credential>)
        requires
            self.wf(),
        ensures
            match found {
                Some(c) => self@.credentials.get(participant_id) == Some(c@),
                None => self@.credentials.get(participant_id) is None,
            },
    {
        match self.credentials.get(participant_id) {
            Some(known) => Some(known.clone()),
            None => None,
        }
    }

    /// A participant's connection record.
    pub fn connection(&self, participant_id: u128) -> (found: Option<Connection>)
        requires
            self.wf(),
        ensures
            match found {
                Some(c) => self@.connections.get(participant_id) == Some(c@),
                None => self@.connections.get(participant_id) is None,
            },
    {
        match self.connections.get(participant_id) {
            Some(known) => Some(known.clone()),
            None => None,
        }
    }

    /// Starts a connection under a new generation.
    pub fn begin_connection(&mut self, participant_id: u128, generation: u128, now: i128)
        requires
            old(self).wf(),
            schedulable(now),
        ensures
            final(self).wf(),
            final(self)@ == old(self)@.connecting(participant_id, generation, now),
    {
        self.connections.put(
            participant_id,
            Connection {
                generation,
                livekit_participant_sid: None,
                state: ConnectionState::Connecting,
                reconnect_deadline: Some(now + CONNECT_GRACE_NS),
                changed_at: now,
            },
        );
        assert(self@ =~= old(self)@.connecting(participant_id, generation, now));
    }

    /// The state of the connection with this generation.
    pub fn connection_state(&self, participant_id: u128, generation: u128) -> (state: Option<
        ConnectionState,
    >)
        requires
            self.wf(),
        ensures
            state == self@.connection_state(participant_id, generation),
    {
        match self.connections.get(participant_id) {
            Some(known) => {
                if known.generation == generation {
                    Some(known.state)
                } else {
                    None
                }
            },
            None => None,
        }
    }

    /// Notes that a connection is online; says whether its generation is current.
    pub fn mark_connection_online(
        &mut self,
        participant_id: u128,
        generation: u128,
        sid: Option<&str>,
        now: i128,
    ) -> (changed: bool)
        requires
            old(self).wf(),
        ensures
            final(self).wf(),
            (final(self)@, changed) == old(self)@.online(
                participant_id,
                generation,
                match sid {
                    Some(s) => Some(s@),
                    None => None,
                },
                now,
            ),
    {
        match self.connection_state(participant_id, generation) {
            Some(_) => {
                let livekit_participant_sid = match sid {
                    Some(s) => Some(s.to_owned()),
                    None => None,
                };
                self.connections.put(
                    participant_id,
                    Connection {
                        generation,
                        livekit_participant_sid,
                        state: ConnectionState::Online,
                        reconnect_deadline: None,
                        changed_at: now,
                    },
                );
                proof {
                    let sid_text: Option<Seq<char>> = match sid {
                        Some(s) => Some(s@),
                        None => None,
                    };
                    assert(self@ =~= old(self)@.online(participant_id, generation, sid_text, now).0);
                }
                true
            },
            None => false,
        }
    }

    /// Notes that a participant is away and may return until a deadline; says whether
    /// the generation is current and the participant did not leave.
    pub fn mark_connection_reconnecting(
        &mut self,
        participant_id: u128,
        generation: u128,
        deadline: i128,
        now: i128,
    ) -> (changed: bool)
        requires
            old(self).wf(),
        ensures
            final(self).wf(),
            (final(self)@, changed) == old(self)@.reconnecting(
                participant_id,
                generation,
                deadline,
                now,
            ),
    {
        match self.connections.get(participant_id) {
            Some(known) => {
                if known.generation != generation || known.state == ConnectionState::Left {
                    return false;
                }
                let mut row = known.clone();
                row.state = ConnectionState::Reconnecting;
                row.reconnect_deadline = Some(deadline);
                row.changed_at = now;
                self.connections.put(participant_id, row);
                assert(self@ =~= old(self)@.reconnecting(
                    participant_id,
                    generation,
                    deadline,
                    now,
                ).0);
                true
            },
            None => false,
        }
    }

    /// Notes that a participant left; says whether the generation is current.
    pub fn mark_connection_left(&mut self, participant_id: u128, generation: u128, now: i128) -> (changed:
        bool)
        requires
            old(self).wf(),
        ensures
            final(self).wf(),
            (final(self)@, changed) == old(self)@.left(participant_id, generation, now),
    {
        match self.connections.get(participant_id) {
            Some(known) => {
                if known.generation != generation {
                    return false;
                }
                let mut row = known.clone();
                row.state = ConnectionState::Left;
                row.reconnect_deadline = None;
                row.changed_at = now;
                self.connections.put(participant_id, row);
                assert(self@ =~= old(self)@.left(participant_id, generation, now).0);
                true
            },
            None => false,
        }
    }

    /// Takes overdue connections offline; says how many there were.
    pub fn expire_connections(&mut self, now: i128) -> (count: usize)
        requires
            old(self).wf(),
        ensures
            final(self).wf(),
            final(self)@ == old(self)@.expire(now),
            count == old(self)@.overdue_count(now),
    {
        let ghost before = self@;
        let ghost list = before.connections.list();
        let ghost p = |c: ConnectionModel| crate::model::is_overdue(c, now);
        let total: usize = self.connections.len();
        let mut count: usize = 0;
        let mut i: usize = 0;
        while i < total
            invariant
                self.tables_sound(),
                before.wf(),
                list == before.connections.list(),
                p == (|c: ConnectionModel| crate::model::is_overdue(c, now)),
                total == before.connections.keys.len(),
                i <= total,
                count <= i,
                count == list.take(i as int).filter(p).len(),
                self@ == (StoreModel { connections: self@.connections, ..before }),
                self@.connections.wf(),
                self@.connections.keys == before.connections.keys,
                forall|j: int|
                    0 <= j < i ==> self@.connections.map[#[trigger] before.connections.keys[j]]
                        == crate::model::expired(list[j], now),
                forall|j: int|
                    i <= j < total ==> self@.connections.map[#[trigger] before.connections.keys[j]]
                        == list[j],
            decreases total - i,
        {
            let ghost here = self@;
            let known = self.connections.value_at(i);
            let waiting = match known.state {
                ConnectionState::Connecting | ConnectionState::Reconnecting => true,
                _ => false,
            };
            let due = match known.reconnect_deadline {
                Some(deadline) => deadline <= now,
                None => false,
            };
            proof {
                reveal(Seq::filter);
                assert(list.take(i + 1).drop_last() =~= list.take(i as int));
                assert(list.take(i + 1).last() == list[i as int]);
                assert(known@ == list[i as int]);
                assert(p(list[i as int]) == (waiting && due));
            }
            if waiting && due {
                let mut row = known.clone();
                row.state = ConnectionState::Offline;
                row.changed_at = now;
                self.connections.replace_at(i, row);
                count += 1;
                proof {
                    let key = before.connections.keys[i as int];
                    assert(here.connections.keys.contains(key));
                    crate::table::lemma_put_wf(here.connections, key, row@);
                    assert(self@ =~= (StoreModel { connections: self@.connections, ..before }));
                    assert forall|j: int| 0 <= j < total && j != i implies self@.connections.map[#[trigger] before.connections.keys[j]]
                        == here.connections.map[before.connections.keys[j]] by {
                        assert(before.connections.keys[j] != key);
                    }
                }
            }
            i += 1;
        }
        proof {
            assert(list.take(total as int) =~= list);
            let f = |c: ConnectionModel| crate::model::expired(c, now);
            assert forall|k: u128| #[trigger] self@.connections.map.contains_key(k) implies self@.connections.map[k]
                == before.connections.map.map_values(f)[k] by {
                assert(before.connections.keys.contains(k));
                let j = choose|j: int|
                    0 <= j < before.connections.keys.len() && before.connections.keys[j] == k;
                assert(self@.connections.map[before.connections.keys[j]] == crate::model::expired(
                    list[j],
                    now,
                ));
            }
            assert forall|k: u128| self@.connections.map.contains_key(k)
                == before.connections.map.contains_key(k) by {
                assert(self@.connections.has(k) <==> self@.connections.keys.contains(k));
                assert(before.connections.has(k) <==> before.connections.keys.contains(k));
            }
            assert(self@.connections.map =~= before.connections.map.map_values(f));
            assert(self@ =~= before.expire(now));
        }
        count
    }

    /// The participants in the order in which they were added.
    fn participant_rows(&self) -> (rows: Vec<Participant>)
        requires
            self.wf(),
        ensures
            views(rows@) == self@.participants.list(),
    {
        let total: usize = self.participants.len();
        let mut rows: Vec<Participant> = Vec::new();
        let mut i: usize = 0;
        while i < total
            invariant
                self.wf(),
                total == self@.participants.keys.len(),
                i <= total,
                views(rows@) == self@.participants.list().take(i as int),
            decreases total - i,
        {
            let row = self.participants.value_at(i).clone();
            let ghost before = rows@;
            rows.push(row);
            proof {
                assert(views(rows@) =~= views(before).push(row@));
                assert(self@.participants.list().take(i + 1) =~= self@.participants.list().take(
                    i as int,
                ).push(row@));
            }
            i += 1;
        }
        proof {
            assert(self@.participants.list().take(total as int) =~= self@.participants.list());
        }
        rows
    }

    /// All participants, in the order in which they became known.
    pub fn all_participants(&self) -> (participants: Vec<Participant>)
        requires
            self.wf(),
        ensures
            crate::order::sorted_by(
                self@.participants.list(),
                crate::model::participant_keys(self@.participants.list()),
                views(participants@),
            ),
    {
        let rows = self.participant_rows();
        sort_participants(&rows)
    }

    /// The participants in the room, in the order in which they became known.
    pub fn present_participants(&self) -> (participants: Vec<ParticipantView>)
        requires
            self.wf(),
        ensures
            crate::order::sorted_by(
                self@.in_room(),
                crate::model::participant_keys(self@.in_room()),
                participants@.map_values(|v: ParticipantView| v.participant@),
            ),
            forall|i: int|
                0 <= i < participants@.len() ==> self@.holds_place(
                    (#[trigger] participants@[i]).participant.id,
                ) && participants@[i].connection_state
                    == self@.connections.map[participants@[i].participant.id].state,
            forall|id: u128|
                #[trigger] self@.participants.has(id) && self@.connections.has(id) && (
                self@.connections.map[id].state is Connecting
                    || self@.connections.map[id].state is Online
                    || self@.connections.map[id].state is Reconnecting) ==> exists|i: int|
                    0 <= i < participants@.len() && (#[trigger] participants@[i]).participant.id
                        == id,
            forall|i: int|
                0 <= i < participants@.len() ==> (
                #[trigger] participants@[i]).connection_state is Connecting
                    || participants@[i].connection_state is Online
                    || participants@[i].connection_state is Reconnecting,
            forall|i: int, j: int|
                0 <= i < j < participants@.len() ==> (#[trigger] participants@[i]).participant.id
                    != (#[trigger] participants@[j]).participant.id,
    {
        let total: usize = self.participants.len();
        let ghost list = self@.participants.list();
        let ghost p = |m: ParticipantModel| self@.holds_place(m.id);
        let mut rows: Vec<Participant> = Vec::new();
        let mut i: usize = 0;
        while i < total
            invariant
                self.wf(),
                list == self@.participants.list(),
                p == (|m: ParticipantModel| self@.holds_place(m.id)),
                total == list.len(),
                i <= total,
                views(rows@) == list.take(i as int).filter(p),
            decreases total - i,
        {
            let known = self.participants.value_at(i);
            proof {
                reveal(Seq::filter);
                assert(list.take(i + 1).drop_last() =~= list.take(i as int));
                assert(list.take(i + 1).last() == list[i as int]);
                assert(p(list[i as int]) == self@.holds_place(list[i as int].id));
            }
            let placed = match self.connections.get(known.id) {
                Some(connection) => present(connection.state),
                None => false,
            };
            if placed {
                let row = known.clone();
                let ghost before = rows@;
                rows.push(row);
                assert(views(rows@) =~= views(before).push(row@));
            }
            i += 1;
        }
        proof {
            assert(list.take(total as int) =~= list);
        }
        let sorted = sort_participants(&rows);
        let ghost models = views(sorted@);
        proof {
            let order = choose|order: Seq<int>|
                #[trigger] crate::order::in_order(
                    crate::model::participant_keys(self@.in_room()),
                    order,
                ) && models == crate::order::picked(self@.in_room(), order);
            assert forall|j: int| 0 <= j < models.len() implies self@.holds_place(
                (#[trigger] models[j]).id,
            ) by {
                assert(models[j] == self@.in_room()[order[j]]);
                list.lemma_filter_pred(p, order[j]);
            }
        }
        let mut out: Vec<ParticipantView> = Vec::new();
        let count: usize = sorted.len();
        let mut j: usize = 0;
        while j < count
            invariant
                self.wf(),
                count == sorted@.len(),
                models == views(sorted@),
                j <= count,
                forall|x: int| 0 <= x < models.len() ==> self@.holds_place((#[trigger] models[x]).id),
                out@.map_values(|v: ParticipantView| v.participant@) == models.take(j as int),
                forall|x: int|
                    0 <= x < out@.len() ==> self@.holds_place((#[trigger] out@[x]).participant.id)
                        && out@[x].connection_state
                        == self@.connections.map[out@[x].participant.id].state,
            decreases count - j,
        {
            let participant = sorted[j].clone();
            let ghost before = out@;
            assert(models[j as int] == participant@);
            match self.connections.get(participant.id) {
                Some(connection) => {
                    let view = ParticipantView { participant, connection_state: connection.state };
                    out.push(view);
                    proof {
                        let m = |v: ParticipantView| v.participant@;
                        assert(out@.map_values(m) =~= before.map_values(m).push(view.participant@));
                        assert(models.take(j + 1) =~= models.take(j as int).push(models[j as int]));
                    }
                },
                None => {},
            }
            j += 1;
        }
        proof {
            assert(models.take(count as int) =~= models);
            crate::laws::law_everyone_present_is_shown(self@, models);
            let shown = out@.map_values(|v: ParticipantView| v.participant@);
            assert forall|i: int| 0 <= i < out@.len() implies (
            #[trigger] out@[i]).participant.id == models[i].id by {
                assert(shown[i] == out@[i].participant@);
            }
            assert forall|id: u128|
                #[trigger] self@.participants.has(id) && self@.connections.has(id) && (
                self@.connections.map[id].state is Connecting
                    || self@.connections.map[id].state is Online
                    || self@.connections.map[id].state is Reconnecting) implies exists|i: int|
                0 <= i < out@.len() && (#[trigger] out@[i]).participant.id == id by {
                let i = choose|i: int| 0 <= i < models.len() && (#[trigger] models[i]).id == id;
                assert(shown.len() == out@.len());
                assert(out@[i].participant.id == id);
            }
        }
        out
    }

    /// When the room became empty.
    pub fn room_empty_since(&self) -> (since: Option<i128>)
        ensures
            since == self@.empty_since,
    {
        self.empty_since
    }

    /// Notes when the room became empty, or that it is not.
    pub fn set_room_empty_since(&mut self, since: Option<i128>)
        requires
            old(self).wf(),
        ensures
            final(self).wf(),
            final(self)@ == (StoreModel { empty_since: since, ..old(self)@ }),
    {
        self.empty_since = since;
        assert(self@ =~= (StoreModel { empty_since: since, ..old(self)@ }));
    }

    /// The host credential of older installations.
    pub fn host(&self) -> (credential: Option<(u128, String)>)
        ensures
            match credential {
                Some((id, hash)) => self@.host_credential == Some((id, hash@)),
                None => self@.host_credential is None,
            },
    {
        match &self.host_credential {
            Some((id, hash)) => Some((*id, hash.clone())),
            None => None,
        }
    }

    // Recordings.

    /// The recording with this identifier.
    pub fn recording(&self, id: u128) -> (found: Option<RecordingSession>)
        requires
            self.wf(),
        ensures
            match found {
                Some(r) => self@.recordings.get(id) == Some(r@),
                None => self@.recordings.get(id) is None,
            },
    {
        match self.recordings.get(id) {
            Some(r) => Some(r.clone()),
            None => None,
        }
    }

    /// The recording with this status that started last.
    fn recording_by_status(&self, status: RecordingStatus) -> (found: Option<RecordingSession>)
        requires
            self.wf(),
        ensures
            match found {
                Some(r) => crate::model::latest_with(self@.recordings.list(), status) == Some(r@),
                None => crate::model::latest_with(self@.recordings.list(), status) is None,
            },
    {
        let total: usize = self.recordings.len();
        let ghost list = self@.recordings.list();
        let mut best: Option<usize> = None;
        let mut i: usize = 0;
        while i < total
            invariant
                self.wf(),
                list == self@.recordings.list(),
                total == list.len(),
                i <= total,
                match best {
                    Some(b) => b < i && crate::model::latest_with(list.take(i as int), status)
                        == Some(list[b as int]),
                    None => crate::model::latest_with(list.take(i as int), status) is None,
                },
            decreases total - i,
        {
            let row = self.recordings.value_at(i);
            let better = match best {
                Some(b) => row.started_at_utc > self.recordings.value_at(b).started_at_utc,
                None => true,
            };
            proof {
                assert(list.take(i + 1).drop_last() =~= list.take(i as int));
                assert(list.take(i + 1).last() == list[i as int]);
            }
            if row.status == status && better {
                best = Some(i);
            }
            i += 1;
        }
        proof {
            assert(list.take(total as int) =~= list);
        }
        match best {
            Some(b) => Some(self.recordings.value_at(b).clone()),
            None => None,
        }
    }

    /// The recording in progress.
    pub fn active_recording(&self) -> (found: Option<RecordingSession>)
        requires
            self.wf(),
        ensures
            match found {
                Some(r) => self@.active_recording() == Some(r@),
                None => self@.active_recording() is None,
            },
    {
        if let Some(r) = self.recording_by_status(RecordingStatus::Starting) {
            return Some(r);
        }
        if let Some(r) = self.recording_by_status(RecordingStatus::Recording) {
            return Some(r);
        }
        self.recording_by_status(RecordingStatus::Stopping)
    }

    /// Adds a recording together with the room session it belongs to; neither is
    /// added where the identifier is taken.
    pub fn create_recording(&mut self, recording: &RecordingSession, room_session: &RoomSession) -> (done:
        Result<(), StoreError>)
        requires
            old(self).wf(),
        ensures
            final(self).wf(),
            (final(self)@, done) == old(self)@.with_recording(recording@, *room_session),
    {
        if self.recordings.get(recording.id).is_some() {
            return Err(StoreError::IdTaken);
        }
        if self.recording_rooms.get(recording.id).is_some() {
            return Err(StoreError::IdTaken);
        }
        let mut row = recording.clone();
        row.stopped_at_utc = None;
        self.recordings.put(recording.id, row);
        self.recording_rooms.put(
            recording.id,
            RecordingRoom {
                room_session_id: room_session.id,
                room_generation: room_session.generation,
            },
        );
        assert(self@ =~= old(self)@.with_recording(recording@, *room_session).0);
        Ok(())
    }

    /// The room session of a recording, under the generation it had then.
    pub fn recording_room_session(&self, recording_id: u128) -> (session: Result<
        RoomSession,
        StoreError,
    >)
        requires
            self.wf(),
        ensures
            match session {
                Ok(s) => self@.recording_room(recording_id) == Some(s),
                Err(e) => self@.recording_room(recording_id) is None && e is Missing,
            },
    {
        let room = match self.recording_rooms.get(recording_id) {
            Some(room) => *room,
            None => {
                return Err(StoreError::Missing);
            },
        };
        match self.sessions.get(room.room_session_id) {
            Some(row) => Ok(
                RoomSession {
                    id: row.session.id,
                    generation: room.room_generation,
                    host_participant_id: row.session.host_participant_id,
                },
            ),
            None => Err(StoreError::Missing),
        }
    }

    /// Replaces the status, the end and the version of a recording.
    pub fn update_recording(&mut self, recording: &RecordingSession)
        requires
            old(self).wf(),
        ensures
            final(self).wf(),
            final(self)@ == old(self)@.with_progress(recording@),
    {
        match self.recordings.get(recording.id) {
            Some(known) => {
                let mut row = known.clone();
                row.status = recording.status;
                row.stopped_at_utc = recording.stopped_at_utc;
                row.version = recording.version;
                self.recordings.put(recording.id, row);
                assert(self@ =~= old(self)@.with_progress(recording@));
            },
            None => {},
        }
    }

    // Track segments.

    /// Where the segment of a track in a recording stands.
    fn track_position(&self, recording_id: u128, track_sid: &str) -> (at: Option<usize>)
        requires
            self.wf(),
        ensures
            match at {
                Some(i) => {
                    &&& i < self@.segments.keys.len()
                    &&& self@.track_key(recording_id, track_sid@) == Some(
                        self@.segments.keys[i as int],
                    )
                    &&& self@.holds_track(
                        self@.segments.keys[i as int],
                        recording_id,
                        track_sid@,
                    )
                },
                None => self@.track_key(recording_id, track_sid@) is None,
            },
    {
        let count: usize = self.segments.len();
        let mut i: usize = 0;
        while i < count
            invariant
                self.wf(),
                count == self@.segments.keys.len(),
                i <= count,
                forall|j: int|
                    0 <= j < i ==> !self@.holds_track(
                        #[trigger] self@.segments.keys[j],
                        recording_id,
                        track_sid@,
                    ),
            decreases count - i,
        {
            let row = self.segments.value_at(i);
            if row.segment.recording_id == recording_id && same_text(
                row.segment.livekit_track_sid.as_str(),
                track_sid,
            ) {
                proof {
                    let key = self@.segments.keys[i as int];
                    assert(self@.segments.keys.contains(key));
                    assert(self@.holds_track(key, recording_id, track_sid@));
                    let chosen = choose|k: u128|
                        crate::model::row_holds(self@.segments, k, recording_id, track_sid@);
                    assert(self@.holds_track(chosen, recording_id, track_sid@));
                    assert(crate::model::is_track(
                        self@.segments.map[chosen],
                        self@.segments.map[key].segment.recording_id,
                        self@.segments.map[key].segment.livekit_track_sid,
                    ));
                    assert(chosen == key);
                }
                return Some(i);
            }
            i += 1;
        }
        proof {
            assert forall|k: u128| !self@.holds_track(k, recording_id, track_sid@) by {
                if self@.holds_track(k, recording_id, track_sid@) {
                    assert(self@.segments.keys.contains(k));
                    let j = choose|j: int|
                        0 <= j < self@.segments.keys.len() && self@.segments.keys[j] == k;
                    assert(!self@.holds_track(
                        self@.segments.keys[j],
                        recording_id,
                        track_sid@,
                    ));
                }
            }
        }
        None
    }

    /// The segment of a track in a recording.
    pub fn segment(&self, recording_id: u128, track_sid: &str) -> (found: Option<SegmentRow>)
        requires
            self.wf(),
        ensures
            match found {
                Some(row) => self@.track(recording_id, track_sid@) == Some(row@),
                None => self@.track(recording_id, track_sid@) is None,
            },
    {
        match self.track_position(recording_id, track_sid) {
            Some(i) => Some(self.segments.value_at(i).clone()),
            None => None,
        }
    }

    /// Puts another record in the place of number `i`, for the same track.
    fn replace_segment(&mut self, i: usize, row: SegmentRow)
        requires
            old(self).wf(),
            i < old(self)@.segments.keys.len(),
            row@.segment.id == old(self)@.segments.keys[i as int],
            crate::model::is_track(
                row@,
                old(self)@.segments.map[old(self)@.segments.keys[i as int]].segment.recording_id,
                old(self)@.segments.map[old(
                    self,
                )@.segments.keys[i as int]].segment.livekit_track_sid,
            ),
        ensures
            final(self).wf(),
            final(self)@ == (StoreModel {
                segments: old(self)@.segments.put(old(self)@.segments.keys[i as int], row@),
                ..old(self)@
            }),
    {
        let ghost before = self@;
        let ghost key = before.segments.keys[i as int];
        proof {
            assert(before.segments.keys.contains(key));
        }
        self.segments.replace_at(i, row);
        proof {
            assert(self@ =~= (StoreModel { segments: before.segments.put(key, row@), ..before }));
            crate::model::lemma_segment_update_wf(before, key, row@);
        }
    }

    /// Adds a segment; says whether it is new. One whose identifier or track has a
    /// segment is left out.
    pub fn insert_segment(&mut self, segment: &TrackSegment) -> (added: Result<bool, StoreError>)
        requires
            old(self).wf(),
        ensures
            final(self).wf(),
            (final(self)@, added) == old(self)@.with_segment(segment@),
    {
        if segment.first_frame_at_ns > i64::MAX as u64 || segment.timeline_start_sample
            > i64::MAX as u64 {
            return Err(StoreError::OutOfRange);
        }
        if self.segments.get(segment.id).is_some() {
            return Ok(false);
        }
        if self.track_position(
            segment.recording_id,
            segment.livekit_track_sid.as_str(),
        ).is_some() {
            return Ok(false);
        }
        let ghost before = self@;
        let mut kept = segment.clone();
        kept.last_frame_at_ns = None;
        kept.sample_count = 0;
        self.segments.put(segment.id, SegmentRow { segment: kept, egress_id: None });
        proof {
            assert(self@ =~= before.with_segment(segment@).0);
            crate::model::lemma_loaded_segment_wf(before, self@.segments.map[segment.id]);
        }
        Ok(true)
    }

    /// Replaces the egress and the status of a track's segment.
    pub fn set_egress(
        &mut self,
        recording_id: u128,
        track_sid: &str,
        egress_id: Option<&str>,
        status: TrackSegmentStatus,
    )
        requires
            old(self).wf(),
        ensures
            final(self).wf(),
            final(self)@ == old(self)@.with_egress(
                recording_id,
                track_sid@,
                match egress_id {
                    Some(e) => Some(e@),
                    None => None,
                },
                status,
            ),
    {
        if let Some(i) = self.track_position(recording_id, track_sid) {
            let mut row = self.segments.value_at(i).clone();
            row.egress_id = match egress_id {
                Some(e) => Some(e.to_owned()),
                None => None,
            };
            row.segment.status = status;
            self.replace_segment(i, row);
        }
    }

    /// Notes what has been received of a track.
    pub fn update_segment_progress(
        &mut self,
        recording_id: u128,
        track_sid: &str,
        first_ns: u64,
        timeline_start: u64,
        samples: u64,
        status: TrackSegmentStatus,
    )
        requires
            old(self).wf(),
        ensures
            final(self).wf(),
            final(self)@ == old(self)@.with_samples(
                recording_id,
                track_sid@,
                first_ns,
                timeline_start,
                samples,
                status,
            ),
    {
        if let Some(i) = self.track_position(recording_id, track_sid) {
            let mut row = self.segments.value_at(i).clone();
            row.segment.first_frame_at_ns = first_ns;
            row.segment.timeline_start_sample = timeline_start;
            row.segment.sample_count = samples;
            row.segment.status = status;
            self.replace_segment(i, row);
        }
    }

    /// Notes that a track has ended.
    pub fn close_segment(&mut self, recording_id: u128, track_sid: &str, last_ns: u64, samples: u64)
        requires
            old(self).wf(),
        ensures
            final(self).wf(),
            final(self)@ == old(self)@.with_end(recording_id, track_sid@, last_ns, samples),
    {
        if let Some(i) = self.track_position(recording_id, track_sid) {
            let mut row = self.segments.value_at(i).clone();
            row.segment.last_frame_at_ns = Some(last_ns);
            row.segment.sample_count = samples;
            row.segment.status = TrackSegmentStatus::Closed;
            self.replace_segment(i, row);
        }
    }

    /// The segments of a recording, in the order in which they came.
    fn segment_rows(&self, recording_id: u128) -> (rows: Vec<SegmentRow>)
        requires
            self.wf(),
        ensures
            views(rows@) == self@.segments_of(recording_id),
    {
        let total: usize = self.segments.len();
        let ghost list = self@.segments.list();
        let ghost p = |r: SegmentRowModel| r.segment.recording_id == recording_id;
        let mut rows: Vec<SegmentRow> = Vec::new();
        let mut i: usize = 0;
        while i < total
            invariant
                self.wf(),
                list == self@.segments.list(),
                p == (|r: SegmentRowModel| r.segment.recording_id == recording_id),
                total == list.len(),
                i <= total,
                views(rows@) == list.take(i as int).filter(p),
            decreases total - i,
        {
            let known = self.segments.value_at(i);
            proof {
                reveal(Seq::filter);
                assert(list.take(i + 1).drop_last() =~= list.take(i as int));
                assert(list.take(i + 1).last() == list[i as int]);
                assert(p(list[i as int]) == (list[i as int].segment.recording_id == recording_id));
            }
            if known.segment.recording_id == recording_id {
                let row = known.clone();
                let ghost before = rows@;
                rows.push(row);
                assert(views(rows@) =~= views(before).push(row@));
            }
            i += 1;
        }
        proof {
            assert(list.take(total as int) =~= list);
        }
        rows
    }

    /// The segments of a recording, by participant and then by their start.
    pub fn segments(&self, recording_id: u128) -> (segments: Vec<SegmentRow>)
        requires
            self.wf(),
        ensures
            crate::order::sorted_by(
                self@.segments_of(recording_id),
                crate::model::segment_keys(self@.segments_of(recording_id)),
                views(segments@),
            ),
    {
        let rows = self.segment_rows(recording_id);
        sort_segments(&rows)
    }

    // Webhooks.

    /// Notes a webhook; says whether it is new.
    pub fn record_webhook(&mut self, event_id: &str) -> (fresh: bool)
        requires
            old(self).wf(),
        ensures
            final(self).wf(),
            fresh == !old(self)@.webhooks.contains(event_id@),
            final(self)@ == (StoreModel {
                webhooks: old(self)@.webhooks.insert(event_id@),
                ..old(self)@
            }),
    {
        let ghost before = self@;
        let total: usize = self.webhooks.len();
        let mut i: usize = 0;
        while i < total
            invariant
                self.wf(),
                self@ == before,
                before == old(self)@,
                total == self.webhooks@.len(),
                i <= total,
                forall|j: int| 0 <= j < i ==> (#[trigger] self.webhooks@[j])@ != event_id@,
            decreases total - i,
        {
            if same_text(self.webhooks[i].as_str(), event_id) {
                proof {
                    assert(views(self.webhooks@)[i as int] == event_id@);
                    assert(self@.webhooks.contains(event_id@));
                    assert(self@.webhooks.insert(event_id@) =~= self@.webhooks);
                }
                return false;
            }
            i += 1;
        }
        proof {
            if self@.webhooks.contains(event_id@) {
                let j = choose|j: int|
                    0 <= j < views(self.webhooks@).len() && views(self.webhooks@)[j] == event_id@;
                assert(self.webhooks@[j]@ != event_id@);
            }
        }
        let ghost ids = self.webhooks@;
        self.webhooks.push(event_id.to_owned());
        proof {
            assert(views(self.webhooks@) =~= views(ids).push(event_id@));
            assert forall|id: Seq<char>| self@.webhooks.contains(id) == before.webhooks.insert(
                event_id@,
            ).contains(id) by {
                if views(ids).contains(id) {
                    let j = choose|j: int| 0 <= j < views(ids).len() && views(ids)[j] == id;
                    assert(views(self.webhooks@)[j] == id);
                }
                if id == event_id@ {
                    assert(views(self.webhooks@)[ids.len() as int] == id);
                }
                if views(self.webhooks@).contains(id) && id != event_id@ {
                    let j = choose|j: int|
                        0 <= j < views(self.webhooks@).len() && views(self.webhooks@)[j] == id;
                    assert(views(ids)[j] == id);
                }
            }
            assert(self@.webhooks =~= before.webhooks.insert(event_id@));
            assert(self@ =~= (StoreModel {
                webhooks: before.webhooks.insert(event_id@),
                ..before
            }));
        }
        true
    }

    // Listing and loading, for a database that keeps the records.

    /// All room sessions, in the order in which they came.
    pub fn room_sessions(&self) -> (rows: Vec<SessionRow>)
        requires
            self.wf(),
        ensures
            rows@ == self@.sessions.list(),
    {
        let total: usize = self.sessions.len();
        let mut rows: Vec<SessionRow> = Vec::new();
        let mut i: usize = 0;
        while i < total
            invariant
                self.wf(),
                total == self@.sessions.keys.len(),
                i <= total,
                rows@ == self@.sessions.list().take(i as int),
            decreases total - i,
        {
            rows.push(*self.sessions.value_at(i));
            assert(self@.sessions.list().take(i + 1) =~= self@.sessions.list().take(i as int).push(
                self@.sessions.list()[i as int],
            ));
            i += 1;
        }
        assert(self@.sessions.list().take(total as int) =~= self@.sessions.list());
        rows
    }

    /// All connections with their participants, in the order in which these came.
    pub fn all_connections(&self) -> (rows: Vec<(u128, Connection)>)
        requires
            self.wf(),
        ensures
            rows@.map_values(|r: (u128, Connection)| r.0) == self@.connections.keys,
            rows@.map_values(|r: (u128, Connection)| r.1@) == self@.connections.list(),
    {
        let total: usize = self.connections.len();
        let mut rows: Vec<(u128, Connection)> = Vec::new();
        let mut i: usize = 0;
        while i < total
            invariant
                self.wf(),
                total == self@.connections.keys.len(),
                i <= total,
                rows@.len() == i,
                forall|j: int|
                    0 <= j < i ==> (#[trigger] rows@[j]).0 == self@.connections.keys[j]
                        && rows@[j].1@ == self@.connections.list()[j],
            decreases total - i,
        {
            let key = self.connections.key_at(i);
            let value = self.connections.value_at(i).clone();
            rows.push((key, value));
            i += 1;
        }
        proof {
            assert(rows@.map_values(|r: (u128, Connection)| r.0) =~= self@.connections.keys);
            assert(rows@.map_values(|r: (u128, Connection)| r.1@) =~= self@.connections.list());
        }
        rows
    }

    /// Loads a credential.
    pub fn load_credential(&mut self, participant_id: u128, credential: Credential)
        requires
            old(self).wf(),
        ensures
            final(self).wf(),
            final(self)@ == (StoreModel {
                credentials: old(self)@.credentials.put(participant_id, credential@),
                ..old(self)@
            }),
    {
        self.credentials.put(participant_id, credential);
        assert(self@ =~= (StoreModel {
            credentials: old(self)@.credentials.put(participant_id, credential@),
            ..old(self)@
        }));
    }

    /// Loads a connection.
    pub fn load_connection(&mut self, participant_id: u128, connection: Connection)
        requires
            old(self).wf(),
        ensures
            final(self).wf(),
            final(self)@ == (StoreModel {
                connections: old(self)@.connections.put(participant_id, connection@),
                ..old(self)@
            }),
    {
        self.connections.put(participant_id, connection);
        assert(self@ =~= (StoreModel {
            connections: old(self)@.connections.put(participant_id, connection@),
            ..old(self)@
        }));
    }

    /// Loads a room session; one that does not agree with those loaded before is refused:
    /// with the same identifier or generation, or active beside another or below a greater
    /// generation.
    pub fn load_session(&mut self, row: SessionRow) -> (loaded: bool)
        requires
            old(self).wf(),
        ensures
            final(self).wf(),
            loaded == crate::model::loadable_session(old(self)@, row),
            final(self)@ == if loaded {
                StoreModel {
                    sessions: old(self)@.sessions.put(row.session.id, row),
                    ..old(self)@
                }
            } else {
                old(self)@
            },
    {
        if self.sessions.get(row.session.id).is_some() {
            return false;
        }
        let ghost before = self@;
        let total: usize = self.sessions.len();
        let mut i: usize = 0;
        while i < total
            invariant
                self.wf(),
                self@ == before,
                before == old(self)@,
                !before.sessions.has(row.session.id),
                total == before.sessions.keys.len(),
                i <= total,
                forall|j: int|
                    0 <= j < i ==> crate::model::sessions_agree(
                        before.sessions.map[#[trigger] before.sessions.keys[j]],
                        row,
                    ),
            decreases total - i,
        {
            let other = *self.sessions.value_at(i);
            let same = other.session.generation == row.session.generation;
            let above = row.active && other.session.generation > row.session.generation;
            let below = other.active && (row.active || row.session.generation
                > other.session.generation);
            if same || above || below {
                proof {
                    let key = before.sessions.keys[i as int];
                    assert(before.sessions.keys.contains(key));
                    assert(!crate::model::sessions_agree(before.sessions.map[key], row));
                }
                return false;
            }
            i += 1;
        }
        proof {
            assert forall|k: u128| before.sessions.has(k) implies crate::model::sessions_agree(
                #[trigger] before.sessions.map[k],
                row,
            ) by {
                assert(before.sessions.keys.contains(k));
                let j = choose|j: int|
                    0 <= j < before.sessions.keys.len() && before.sessions.keys[j] == k;
                assert(crate::model::sessions_agree(
                    before.sessions.map[before.sessions.keys[j]],
                    row,
                ));
            }
            crate::model::lemma_loaded_session_wf(before, row);
        }
        self.sessions.put(row.session.id, row);
        assert(self@ =~= (StoreModel {
            sessions: before.sessions.put(row.session.id, row),
            ..before
        }));
        true
    }

    /// Loads a recording and, where it has one, its room session.
    pub fn load_recording(&mut self, recording: RecordingSession, room: Option<RecordingRoom>)
        requires
            old(self).wf(),
        ensures
            final(self).wf(),
            final(self)@ == (StoreModel {
                recordings: old(self)@.recordings.put(recording.id, recording@),
                recording_rooms: match room {
                    Some(r) => old(self)@.recording_rooms.put(recording.id, r),
                    None => old(self)@.recording_rooms,
                },
                ..old(self)@
            }),
    {
        let id = recording.id;
        let ghost model = recording@;
        self.recordings.put(id, recording);
        if let Some(r) = room {
            self.recording_rooms.put(id, r);
        }
        assert(self@ =~= (StoreModel {
            recordings: old(self)@.recordings.put(id, model),
            recording_rooms: match room {
                Some(r) => old(self)@.recording_rooms.put(id, r),
                None => old(self)@.recording_rooms,
            },
            ..old(self)@
        }));
    }

    /// Loads a segment; one whose identifier or track has a segment is refused.
    pub fn load_segment(&mut self, row: SegmentRow) -> (loaded: bool)
        requires
            old(self).wf(),
        ensures
            final(self).wf(),
            loaded == (!old(self)@.segments.has(row.segment.id) && old(self)@.track_key(
                row.segment.recording_id,
                row.segment.livekit_track_sid@,
            ) is None),
            final(self)@ == if loaded {
                StoreModel {
                    segments: old(self)@.segments.put(row.segment.id, row@),
                    ..old(self)@
                }
            } else {
                old(self)@
            },
    {
        if self.segments.get(row.segment.id).is_some() {
            return false;
        }
        if self.track_position(
            row.segment.recording_id,
            row.segment.livekit_track_sid.as_str(),
        ).is_some() {
            return false;
        }
        let ghost before = self@;
        let ghost model = row@;
        self.segments.put(row.segment.id, row);
        proof {
            assert(self@ =~= (StoreModel {
                segments: before.segments.put(model.segment.id, model),
                ..before
            }));
            crate::model::lemma_loaded_segment_wf(before, model);
        }
        true
    }

    /// Loads the host credential of older installations.
    pub fn load_host(&mut self, participant_id: u128, hash: String)
        requires
            old(self).wf(),
        ensures
            final(self).wf(),
            final(self)@ == (StoreModel {
                host_credential: Some((participant_id, hash@)),
                ..old(self)@
            }),
    {
        let ghost text = hash@;
        self.host_credential = Some((participant_id, hash));
        assert(self@ =~= (StoreModel {
            host_credential: Some((participant_id, text)),
            ..old(self)@
        }));
    }
}

/// Participants in the order in which they became known.
fn sort_participants(rows: &Vec<Participant>) -> (sorted: Vec<Participant>)
    ensures
        crate::order::sorted_by(
            views(rows@),
            crate::model::participant_keys(views(rows@)),
            views(sorted@),
        ),
{
    let total: usize = rows.len();
    let mut keys: Vec<SortKey> = Vec::new();
    let mut i: usize = 0;
    while i < total
        invariant
            total == rows@.len(),
            i <= total,
            keys@ == crate::model::participant_keys(views(rows@)).take(i as int),
        decreases total - i,
    {
        keys.push((0, rows[i].created_at));
        proof {
            let all = crate::model::participant_keys(views(rows@));
            assert(all.take(i + 1) =~= all.take(i as int).push(all[i as int]));
            assert(all[i as int] == (0u128, rows@[i as int].created_at));
        }
        i += 1;
    }
    assert(crate::model::participant_keys(views(rows@)).take(total as int)
        =~= crate::model::participant_keys(views(rows@)));
    let order = sort_order(&keys);
    let ghost places = crate::order::places(order@);
    let mut sorted: Vec<Participant> = Vec::new();
    let mut j: usize = 0;
    while j < total
        invariant
            total == rows@.len(),
            order@.len() == total,
            places == crate::order::places(order@),
            crate::order::in_order(crate::model::participant_keys(views(rows@)), places),
            j <= total,
            views(sorted@) == crate::order::picked(views(rows@), places).take(j as int),
        decreases total - j,
    {
        proof {
            assert(places[j as int] == order@[j as int]);
        }
        let row = rows[order[j]].clone();
        let ghost before = sorted@;
        sorted.push(row);
        proof {
            let all = crate::order::picked(views(rows@), places);
            assert(views(sorted@) =~= views(before).push(row@));
            assert(all.take(j + 1) =~= all.take(j as int).push(all[j as int]));
            assert(all[j as int] == row@);
        }
        j += 1;
    }
    proof {
        assert(crate::order::picked(views(rows@), places).take(total as int)
            =~= crate::order::picked(views(rows@), places));
    }
    sorted
}

/// Segments by participant and then by their start.
fn sort_segments(rows: &Vec<SegmentRow>) -> (sorted: Vec<SegmentRow>)
    ensures
        crate::order::sorted_by(
            views(rows@),
            crate::model::segment_keys(views(rows@)),
            views(sorted@),
        ),
{
    let total: usize = rows.len();
    let mut keys: Vec<SortKey> = Vec::new();
    let mut i: usize = 0;
    while i < total
        invariant
            total == rows@.len(),
            i <= total,
            keys@ == crate::model::segment_keys(views(rows@)).take(i as int),
        decreases total - i,
    {
        keys.push(
            (rows[i].segment.participant_id, rows[i].segment.timeline_start_sample as i128),
        );
        proof {
            let all = crate::model::segment_keys(views(rows@));
            assert(all.take(i + 1) =~= all.take(i as int).push(all[i as int]));
            assert(views(rows@)[i as int] == rows@[i as int]@);
        }
        i += 1;
    }
    assert(crate::model::segment_keys(views(rows@)).take(total as int)
        =~= crate::model::segment_keys(views(rows@)));
    let order = sort_order(&keys);
    let ghost places = crate::order::places(order@);
    let mut sorted: Vec<SegmentRow> = Vec::new();
    let mut j: usize = 0;
    while j < total
        invariant
            total == rows@.len(),
            order@.len() == total,
            places == crate::order::places(order@),
            crate::order::in_order(crate::model::segment_keys(views(rows@)), places),
            j <= total,
            views(sorted@) == crate::order::picked(views(rows@), places).take(j as int),
        decreases total - j,
    {
        proof {
            assert(places[j as int] == order@[j as int]);
        }
        let row = rows[order[j]].clone();
        let ghost before = sorted@;
        sorted.push(row);
        proof {
            let all = crate::order::picked(views(rows@), places);
            assert(views(sorted@) =~= views(before).push(row@));
            assert(all.take(j + 1) =~= all.take(j as int).push(all[j as int]));
            assert(all[j as int] == row@);
        }
        j += 1;
    }
    proof {
        assert(crate::order::picked(views(rows@), places).take(total as int)
            =~= crate::order::picked(views(rows@), places));
    }
    sorted
}

/// An instant can be worked with from the epoch on, as long as 300 seconds are left in the
/// calendar.
pub proof fn law_which_instants_can_be_worked_with(now: i128)
    ensures
        schedulable(now) <==> 0 <= now && now + 300_000_000_000
            <= 8_210_266_876_799_999_999_999,
{
}

} // verus!
