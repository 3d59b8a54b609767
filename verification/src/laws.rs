//! What holds of the store across operations.

use vstd::prelude::*;

use crate::domain::{
    is_present, ConnectionModel, ConnectionState, ParticipantModel, ParticipantRole,
    RecordingModel, RecordingStatus, RoomSession, SegmentModel, SegmentRowModel,
    SessionRow, TrackSegmentStatus,
};
use crate::model::{
    expired, is_overdue, is_track, latest_with, lemma_ensured_is_active, lemma_occupied,
    lemma_session_update_wf, lemma_top, loadable_session, participant_keys, row_active,
    row_holds, segment_keys, sessions_agree, top_generation, StoreError, StoreModel,
    CONNECT_GRACE_NS,
};
use crate::order::{
    law_sorted_records_follow_each_other, law_sorting_keeps_every_record, sorted_by,
};
use crate::table::{lemma_filter_is_distinct, lemma_list_is_distinct, lemma_list_is_the_table};

verus! {

/// News of a generation that is not current changes nothing.
pub proof fn law_stale_generation_changes_nothing(
    m: StoreModel,
    id: u128,
    generation: u128,
    sid: Option<Seq<char>>,
    deadline: i128,
    now: i128,
)
    requires
        !m.current(id, generation),
    ensures
        m.online(id, generation, sid, now) == (m, false),
        m.reconnecting(id, generation, deadline, now) == (m, false),
        m.left(id, generation, now) == (m, false),
        m.connection_state(id, generation) is None,
{
}

/// Once a participant connects anew, every earlier generation is stale.
pub proof fn law_new_connection_outdates_old_one(
    m: StoreModel,
    id: u128,
    old_generation: u128,
    new_generation: u128,
    now: i128,
)
    requires
        old_generation != new_generation,
    ensures
        !m.connecting(id, new_generation, now).current(id, old_generation),
        m.connecting(id, new_generation, now).connection_state(id, new_generation) == Some(
            ConnectionState::Connecting,
        ),
{
}

/// A participant who left is not taken for one who may return, and no deadline applies.
pub proof fn law_leaving_is_not_undone(
    m: StoreModel,
    id: u128,
    generation: u128,
    deadline: i128,
    left_at: i128,
    now: i128,
)
    requires
        m.current(id, generation),
    ensures
        m.left(id, generation, left_at).1,
        ({
            let after = m.left(id, generation, left_at).0;
            &&& after.connection_state(id, generation) == Some(ConnectionState::Left)
            &&& after.reconnecting(id, generation, deadline, now) == (after, false)
            &&& after.expire(now).connection_state(id, generation) == Some(ConnectionState::Left)
            &&& !after.holds_place(id)
        }),
{
}

/// A participant who is away keeps the place until the deadline and loses it then.
pub proof fn law_place_is_kept_until_the_deadline(
    m: StoreModel,
    id: u128,
    generation: u128,
    deadline: i128,
    away_at: i128,
    now: i128,
)
    requires
        m.current(id, generation),
        !(m.connections.map[id].state is Left),
    ensures
        m.reconnecting(id, generation, deadline, away_at).1,
        ({
            let after = m.reconnecting(id, generation, deadline, away_at).0.expire(now);
            after.connection_state(id, generation) == Some(
                if now < deadline {
                    ConnectionState::Reconnecting
                } else {
                    ConnectionState::Offline
                },
            )
        }),
{
}

/// A fresh connection that does not come online within 60 seconds goes offline then,
/// and not before.
pub proof fn law_fresh_connection_is_given_a_minute(
    m: StoreModel,
    id: u128,
    generation: u128,
    begun_at: i128,
    now: i128,
)
    requires
        0 <= begun_at,
        begun_at + CONNECT_GRACE_NS <= i128::MAX,
    ensures
        m.connecting(id, generation, begun_at).expire(now).connection_state(id, generation) == Some(
            if now - begun_at < 60_000_000_000 {
                ConnectionState::Connecting
            } else {
                ConnectionState::Offline
            },
        ),
{
}

/// Once deadlines were applied none is overdue, and applying them again changes nothing.
pub proof fn law_expiry_is_idempotent(m: StoreModel, now: i128)
    ensures
        forall|k: u128|
            m.connections.has(k) ==> !is_overdue(#[trigger] m.expire(now).connections.map[k], now),
        m.expire(now).expire(now) == m.expire(now),
{
    let once = m.expire(now);
    let f = |c: ConnectionModel| expired(c, now);
    assert forall|k: u128| m.connections.has(k) implies !is_overdue(
        #[trigger] once.connections.map[k],
        now,
    ) by {
        assert(once.connections.map[k] == f(m.connections.map[k]));
    }
    assert forall|k: u128| #[trigger] once.connections.map.contains_key(k) implies once.expire(
        now,
    ).connections.map[k] == once.connections.map[k] by {
        assert(m.connections.has(k));
        assert(!is_overdue(once.connections.map[k], now));
    }
    assert(once.expire(now).connections.map =~= once.connections.map);
    assert(once.expire(now) =~= once);
}

/// A session that was ensured is the active one, and ensuring it again gives it again.
pub proof fn law_ensured_session_is_active(
    m: StoreModel,
    id: u128,
    now: i128,
    other: u128,
    later: i128,
)
    requires
        m.wf(),
        m.ensured(id, now).1 is Ok,
    ensures
        ({
            let (after, session) = m.ensured(id, now);
            &&& after.wf()
            &&& after.active_session() == Some(session->Ok_0)
            &&& after.ensured(other, later) == (after, session)
        }),
{
    lemma_ensured_is_active(m, id, now);
}

/// Of all claims on one session the first succeeds; every later one is refused and
/// changes nothing.
pub proof fn law_session_has_one_host(
    m: StoreModel,
    first: u128,
    second: u128,
    id: u128,
    now: i128,
    other: u128,
    later: i128,
)
    requires
        m.wf(),
        m.claimed(first, id, now).1 == Ok::<bool, StoreError>(true),
    ensures
        ({
            let after = m.claimed(first, id, now).0;
            &&& after.wf()
            &&& after.room_host() == Some(first)
            &&& after.claimed(second, other, later) == (after, Ok::<bool, StoreError>(false))
            &&& after.participants.has(first) ==> after.participants.map[first].role
                == ParticipantRole::Host
        }),
{
    lemma_claimed(m, first, id, now);
    let after = m.claimed(first, id, now).0;
    lemma_ensured_is_active(after, other, later);
}

/// After a successful claim the claimant is the host.
proof fn lemma_claimed(m: StoreModel, claimant: u128, id: u128, now: i128)
    requires
        m.wf(),
        m.claimed(claimant, id, now).1 == Ok::<bool, StoreError>(true),
    ensures
        m.claimed(claimant, id, now).0.wf(),
        m.claimed(claimant, id, now).0.room_host() == Some(claimant),
{
    lemma_ensured_is_active(m, id, now);
    let (ensured, session) = m.ensured(id, now);
    let s = session->Ok_0;
    let row = crate::domain::SessionRow {
        session: RoomSession { host_participant_id: Some(claimant), ..ensured.sessions.map[s.id].session },
        ..ensured.sessions.map[s.id]
    };
    lemma_session_update_wf(ensured, s.id, row);
    let after = m.claimed(claimant, id, now).0;
    if ensured.participants.has(claimant) {
        crate::table::lemma_put_wf(
            ensured.participants,
            claimant,
            ParticipantModel {
                role: ParticipantRole::Host,
                ..ensured.participants.map[claimant]
            },
        );
    }
    assert(after.is_active(s.id));
    let chosen = choose|k: u128| row_active(after.sessions, k);
    assert(after.is_active(chosen));
    assert(after.sessions.map[chosen].active && after.sessions.map[s.id].active);
}

/// A claim never replaces a host.
pub proof fn law_host_is_not_transferred(
    m: StoreModel,
    claimant: u128,
    id: u128,
    now: i128,
)
    requires
        m.wf(),
        m.room_host() is Some,
    ensures
        m.claimed(claimant, id, now) == (m, Ok::<bool, StoreError>(false)),
{
}

/// While somebody is in the room its session stays open.
pub proof fn law_occupied_room_is_not_closed(m: StoreModel, k: u128, now: i128)
    requires
        m.holds_place(k),
    ensures
        m.closed_if_empty(now) == (m, None::<RoomSession>),
{
    assert(m.connections.has(k) && is_present(m.connections.map[k].state));
}

/// The session of an empty room is closed and its host released; whoever comes next
/// opens the next generation, which has no host.
pub proof fn law_closing_releases_the_host(
    m: StoreModel,
    now: i128,
    next_id: u128,
    later: i128,
)
    requires
        m.wf(),
        m.active_session() is Some,
        m.present_count() == 0,
    ensures
        ({
            let session = m.active_session()->0;
            let (after, closed) = m.closed_if_empty(now);
            &&& closed == Some(session)
            &&& after.wf()
            &&& after.active_session() is None
            &&& after.room_host() is None
            &&& match session.host_participant_id {
                Some(host) => after.participants.has(host) ==> after.participants.map[host].role
                    == ParticipantRole::Participant,
                None => after.participants == m.participants,
            }
            &&& session.generation < i64::MAX && !m.sessions.has(next_id) ==> {
                let (opened, next) = after.ensured(next_id, later);
                &&& next is Ok
                &&& next->Ok_0.generation == session.generation + 1
                &&& next->Ok_0.host_participant_id is None
                &&& opened.active_session() == Some(next->Ok_0)
            }
        }),
{
    lemma_occupied(m);
    let session = m.active_session()->0;
    let (after, closed) = m.closed_if_empty(now);
    let chosen = choose|k: u128| row_active(m.sessions, k);
    assert(m.is_active(chosen));
    assert(m.sessions.map[chosen].session.id == chosen);
    let row = crate::domain::SessionRow {
        active: false,
        closed_at: Some(now),
        ..m.sessions.map[session.id]
    };
    lemma_session_update_wf(m, session.id, row);
    if let Some(host) = session.host_participant_id {
        if m.participants.has(host) {
            crate::table::lemma_put_wf(
                m.participants,
                host,
                ParticipantModel {
                    role: ParticipantRole::Participant,
                    ..m.participants.map[host]
                },
            );
        }
    }
    assert forall|k: u128| !after.is_active(k) by {
        if after.is_active(k) {
            assert(m.sessions.map[k].active && m.sessions.map[chosen].active);
        }
    }
    let list = after.sessions.list();
    assert(after.sessions.keys.contains(session.id));
    let at = choose|i: int| 0 <= i < list.len() && after.sessions.keys[i] == session.id;
    assert(list[at].session.generation == session.generation);
    lemma_top(list);
    lemma_top_is_attained(list);
    let top = choose|i: int|
        0 <= i < list.len() && (#[trigger] list[i]).session.generation == top_generation(list);
    let top_key = after.sessions.keys[top];
    assert(after.sessions.keys.contains(top_key));
    assert(list[top] == after.sessions.map[top_key]);
    assert(m.sessions.map[top_key].session.generation <= m.sessions.map[session.id].session.generation);
    assert(top_generation(list) == session.generation);
    if session.generation < i64::MAX && !m.sessions.has(next_id) {
        lemma_ensured_is_active(after, next_id, later);
    }
}

proof fn lemma_top_is_attained(rows: Seq<crate::domain::SessionRow>)
    requires
        rows.len() > 0,
    ensures
        exists|i: int|
            0 <= i < rows.len() && (#[trigger] rows[i]).session.generation == top_generation(rows),
    decreases rows.len(),
{
    if rows.len() == 1 {
        assert(rows[0].session.generation == top_generation(rows));
    } else {
        let shorter = rows.drop_last();
        lemma_top_is_attained(shorter);
        let i = choose|i: int|
            0 <= i < shorter.len() && (#[trigger] shorter[i]).session.generation == top_generation(
                shorter,
            );
        assert(rows[i] == shorter[i]);
        assert(rows[rows.len() - 1] == rows.last());
    }
}

/// A new generation is greater than every one before it.
pub proof fn law_generations_grow(m: StoreModel, id: u128, now: i128, k: u128)
    requires
        m.wf(),
        m.active_session() is None,
        m.ensured(id, now).1 is Ok,
        m.sessions.has(k),
    ensures
        m.ensured(id, now).1->Ok_0.generation > m.sessions.map[k].session.generation,
{
    lemma_top(m.sessions.list());
    assert(m.sessions.keys.contains(k));
    let i = choose|i: int| 0 <= i < m.sessions.keys.len() && m.sessions.keys[i] == k;
    assert(m.sessions.list()[i] == m.sessions.map[k]);
}

/// A participant keeps the identity and the day of arrival.
pub proof fn law_identity_is_kept(m: StoreModel, p: ParticipantModel)
    requires
        m.participants.has(p.id),
    ensures
        m.upserted(p).participants.map[p.id].livekit_identity
            == m.participants.map[p.id].livekit_identity,
        m.upserted(p).participants.map[p.id].created_at == m.participants.map[p.id].created_at,
        m.upserted(p).participants.keys == m.participants.keys,
{
}

/// A resume token counts until the next one is issued.
pub proof fn law_credential_is_rotated(
    m: StoreModel,
    id: u128,
    first: Seq<char>,
    second: Seq<char>,
    now: i128,
    later: i128,
)
    ensures
        ({
            let after = m.with_credential(id, first, now).with_credential(id, second, later);
            &&& after.credentials.map[id].resume_token_hash == second
            &&& after.credentials.map[id].rotated_at == later
            &&& after.credentials.map[id].created_at == m.with_credential(
                id,
                first,
                now,
            ).credentials.map[id].created_at
        }),
{
}

/// A track has one segment in a recording: adding another is refused.
pub proof fn law_track_has_one_segment(m: StoreModel, first: SegmentModel, second: SegmentModel)
    requires
        m.wf(),
        m.with_segment(first).1 == Ok::<bool, StoreError>(true),
        second.recording_id == first.recording_id,
        second.livekit_track_sid == first.livekit_track_sid,
        second.first_frame_at_ns <= i64::MAX,
        second.timeline_start_sample <= i64::MAX,
    ensures
        ({
            let after = m.with_segment(first).0;
            after.with_segment(second) == (after, Ok::<bool, StoreError>(false))
        }),
{
    let after = m.with_segment(first).0;
    assert(after.holds_track(first.id, first.recording_id, first.livekit_track_sid));
}

/// The recording in progress starts, runs or stops, and no recording with the same
/// status started later.
pub proof fn law_active_recording_is_the_latest(m: StoreModel, k: u128)
    requires
        m.wf(),
        m.recordings.has(k),
    ensures
        match m.active_recording() {
            Some(r) => {
                &&& m.recordings.get(r.id) == Some(r)
                &&& r.status is Starting || r.status is Recording || r.status is Stopping
                &&& m.recordings.map[k].status == r.status ==> m.recordings.map[k].started_at_utc
                    <= r.started_at_utc
                &&& m.recordings.map[k].status is Starting ==> r.status is Starting
                &&& m.recordings.map[k].status is Recording ==> !(r.status is Stopping)
            },
            None => m.recordings.map[k].status is Completed || m.recordings.map[k].status is Failed,
        },
{
    let rows = m.recordings.list();
    assert(m.recordings.keys.contains(k));
    let at = choose|i: int| 0 <= i < m.recordings.keys.len() && m.recordings.keys[i] == k;
    assert(rows[at] == m.recordings.map[k]);
    lemma_latest(rows, RecordingStatus::Starting);
    lemma_latest(rows, RecordingStatus::Recording);
    lemma_latest(rows, RecordingStatus::Stopping);
    if let Some(r) = m.active_recording() {
        let i = choose|i: int| 0 <= i < rows.len() && rows[i] == r;
        assert(m.recordings.keys.contains(m.recordings.keys[i]));
        assert(m.recordings.map[m.recordings.keys[i]] == r);
    }
}

proof fn lemma_latest(rows: Seq<RecordingModel>, status: RecordingStatus)
    ensures
        match latest_with(rows, status) {
            Some(r) => {
                &&& r.status == status
                &&& rows.contains(r)
                &&& forall|i: int|
                    0 <= i < rows.len() && (#[trigger] rows[i]).status == status
                        ==> rows[i].started_at_utc <= r.started_at_utc
            },
            None => forall|i: int| 0 <= i < rows.len() ==> (#[trigger] rows[i]).status != status,
        },
    decreases rows.len(),
{
    if rows.len() > 0 {
        let shorter = rows.drop_last();
        lemma_latest(shorter, status);
        assert(rows[rows.len() - 1] == rows.last());
        assert forall|i: int| 0 <= i < rows.len() - 1 implies shorter[i] == #[trigger] rows[i] by {}
        if let Some(r) = latest_with(shorter, status) {
            let i = choose|i: int| 0 <= i < shorter.len() && shorter[i] == r;
            assert(rows[i] == r);
        }
    }
}

/// Room sessions, and with them the host, change by opening, claiming and closing alone.
pub proof fn law_nothing_else_touches_room_sessions(
    m: StoreModel,
    p: ParticipantModel,
    id: u128,
    generation: u128,
    text: Seq<char>,
    sid: Option<Seq<char>>,
    deadline: i128,
    now: i128,
    r: RecordingModel,
    session: RoomSession,
    s: SegmentModel,
    first_ns: u64,
    start: u64,
    samples: u64,
    status: crate::domain::TrackSegmentStatus,
)
    ensures
        m.upserted(p).sessions == m.sessions,
        m.with_credential(id, text, now).sessions == m.sessions,
        m.connecting(id, generation, now).sessions == m.sessions,
        m.online(id, generation, sid, now).0.sessions == m.sessions,
        m.reconnecting(id, generation, deadline, now).0.sessions == m.sessions,
        m.left(id, generation, now).0.sessions == m.sessions,
        m.expire(now).sessions == m.sessions,
        m.with_recording(r, session).0.sessions == m.sessions,
        m.with_progress(r).sessions == m.sessions,
        m.with_segment(s).0.sessions == m.sessions,
        m.with_egress(id, text, sid, status).sessions == m.sessions,
        m.with_samples(id, text, first_ns, start, samples, status).sessions == m.sessions,
        m.with_end(id, text, first_ns, samples).sessions == m.sessions,
{
}

/// Whether a segment is kept: it stands under its key, for the same track, participant and
/// file.
pub open spec fn keeps_segment(before: StoreModel, after: StoreModel, key: u128) -> bool {
    before.segments.has(key) ==> {
        let old_segment = before.segments.map[key].segment;
        let new_segment = after.segments.map[key].segment;
        &&& after.segments.has(key)
        &&& new_segment.recording_id == old_segment.recording_id
        &&& new_segment.participant_id == old_segment.participant_id
        &&& new_segment.livekit_track_sid == old_segment.livekit_track_sid
        &&& new_segment.segment_index == old_segment.segment_index
        &&& new_segment.pcm_path == old_segment.pcm_path
    }
}

/// What was recorded is kept: no operation removes a segment or gives it another track,
/// participant or file.
pub proof fn law_segments_are_kept(
    m: StoreModel,
    key: u128,
    s: SegmentModel,
    recording_id: u128,
    track_sid: Seq<char>,
    egress_id: Option<Seq<char>>,
    first_ns: u64,
    start: u64,
    samples: u64,
    status: crate::domain::TrackSegmentStatus,
)
    requires
        m.wf(),
    ensures
        keeps_segment(m, m.with_segment(s).0, key),
        keeps_segment(m, m.with_egress(recording_id, track_sid, egress_id, status), key),
        keeps_segment(
            m,
            m.with_samples(recording_id, track_sid, first_ns, start, samples, status),
            key,
        ),
        keeps_segment(m, m.with_end(recording_id, track_sid, first_ns, samples), key),
{
}

// What each operation does to the records.

/// The segments of a recording are listed all of them, each once, and no others: by
/// participant, and those of a participant by their start.
pub proof fn law_segments_are_all_listed(
    m: StoreModel,
    recording_id: u128,
    rows: Seq<SegmentRowModel>,
)
    requires
        m.wf(),
        sorted_by(m.segments_of(recording_id), segment_keys(m.segments_of(recording_id)), rows),
    ensures
        forall|k: u128|
            m.segments.has(k) && (#[trigger] m.segments.map[k]).segment.recording_id
                == recording_id ==> rows.contains(m.segments.map[k]),
        forall|i: int|
            0 <= i < rows.len() ==> {
                let k = (#[trigger] rows[i]).segment.id;
                m.segments.has(k) && m.segments.map[k] == rows[i] && rows[i].segment.recording_id
                    == recording_id
            },
        forall|i: int, j: int|
            0 <= i < j < rows.len() ==> {
                let first = (#[trigger] rows[i]).segment;
                let second = (#[trigger] rows[j]).segment;
                &&& first.id != second.id
                &&& first.participant_id < second.participant_id || first.participant_id
                    == second.participant_id && first.timeline_start_sample
                    <= second.timeline_start_sample
            },
{
    let all = m.segments.list();
    let p = |r: SegmentRowModel| r.segment.recording_id == recording_id;
    let list = m.segments_of(recording_id);
    lemma_list_is_the_table(m.segments);
    lemma_list_is_distinct(m.segments, |r: SegmentRowModel| r.segment.id);
    lemma_filter_is_distinct(all, p);
    law_sorting_keeps_every_record(list, segment_keys(list), rows);
    broadcast use vstd::seq_lib::group_filter_ensures;
    assert forall|k: u128|
        m.segments.has(k) && (#[trigger] m.segments.map[k]).segment.recording_id
            == recording_id implies rows.contains(m.segments.map[k]) by {
        assert(all.contains(m.segments.map[k]));
        let i = choose|i: int| 0 <= i < all.len() && all[i] == m.segments.map[k];
        assert(p(all[i]));
        assert(list.contains(all[i]));
    }
    assert forall|i: int| 0 <= i < rows.len() implies {
        let k = (#[trigger] rows[i]).segment.id;
        m.segments.has(k) && m.segments.map[k] == rows[i] && rows[i].segment.recording_id
            == recording_id
    } by {
        assert(rows.contains(rows[i]));
        assert(list.contains(rows[i]));
        let at = choose|at: int| 0 <= at < list.len() && list[at] == rows[i];
        assert(p(list[at]));
        all.lemma_filter_contains_rev(p, rows[i]);
        let k = choose|k: u128| m.segments.has(k) && #[trigger] m.segments.map[k] == rows[i];
        assert(m.segments.map[k].segment.id == k);
    }
    assert forall|i: int, j: int| 0 <= i < j < rows.len() implies {
        let first = (#[trigger] rows[i]).segment;
        let second = (#[trigger] rows[j]).segment;
        &&& first.id != second.id
        &&& first.participant_id < second.participant_id || first.participant_id
            == second.participant_id && first.timeline_start_sample
            <= second.timeline_start_sample
    } by {
        let key = |r: SegmentRowModel|
            (r.segment.participant_id, r.segment.timeline_start_sample as i128);
        assert(segment_keys(list) =~= list.map_values(key));
        law_sorted_records_follow_each_other(list, key, rows, i, j);
        assert(rows[i] != rows[j]);
        assert(m.segments.map[rows[i].segment.id] == rows[i]);
        assert(m.segments.map[rows[j].segment.id] == rows[j]);
    }
}

/// Everyone who is known is listed, once, by the day of arrival.
pub proof fn law_participants_are_all_listed(m: StoreModel, listed: Seq<ParticipantModel>)
    requires
        m.wf(),
        sorted_by(m.participants.list(), participant_keys(m.participants.list()), listed),
    ensures
        forall|id: u128|
            m.participants.has(id) ==> listed.contains(#[trigger] m.participants.map[id]),
        forall|i: int|
            0 <= i < listed.len() ==> m.participants.has((#[trigger] listed[i]).id)
                && m.participants.map[listed[i].id] == listed[i],
        forall|i: int, j: int|
            0 <= i < j < listed.len() ==> (#[trigger] listed[i]).id != (#[trigger] listed[j]).id
                && listed[i].created_at <= listed[j].created_at,
{
    let all = m.participants.list();
    lemma_list_is_the_table(m.participants);
    lemma_list_is_distinct(m.participants, |p: ParticipantModel| p.id);
    lemma_listed_participants(m, all, listed);
}

proof fn lemma_listed_participants(
    m: StoreModel,
    list: Seq<ParticipantModel>,
    listed: Seq<ParticipantModel>,
)
    requires
        m.wf(),
        list.no_duplicates(),
        forall|x: ParticipantModel|
            #[trigger] list.contains(x) ==> m.participants.has(x.id) && m.participants.map[x.id]
                == x,
        sorted_by(list, participant_keys(list), listed),
    ensures
        forall|x: ParticipantModel| #[trigger] listed.contains(x) <==> list.contains(x),
        forall|i: int|
            0 <= i < listed.len() ==> m.participants.has((#[trigger] listed[i]).id)
                && m.participants.map[listed[i].id] == listed[i],
        forall|i: int, j: int|
            0 <= i < j < listed.len() ==> (#[trigger] listed[i]).id != (#[trigger] listed[j]).id
                && listed[i].created_at <= listed[j].created_at,
{
    law_sorting_keeps_every_record(list, participant_keys(list), listed);
    assert forall|i: int| 0 <= i < listed.len() implies m.participants.has(
        (#[trigger] listed[i]).id,
    ) && m.participants.map[listed[i].id] == listed[i] by {
        assert(listed.contains(listed[i]));
        assert(list.contains(listed[i]));
    }
    assert forall|i: int, j: int| 0 <= i < j < listed.len() implies (#[trigger] listed[i]).id != (
    #[trigger] listed[j]).id && listed[i].created_at <= listed[j].created_at by {
        let key = |p: ParticipantModel| (0u128, p.created_at);
        assert(participant_keys(list) =~= list.map_values(key));
        law_sorted_records_follow_each_other(list, key, listed, i, j);
        assert(listed[i] != listed[j]);
        assert(m.participants.map[listed[i].id] == listed[i]);
        assert(m.participants.map[listed[j].id] == listed[j]);
    }
}

/// The view of the room shows those and only those of whom the server knows and whose
/// connection is being made, is online or is waited for: each once, with the record that is
/// kept of them, by the day of arrival.
pub proof fn law_everyone_present_is_shown(m: StoreModel, shown: Seq<ParticipantModel>)
    requires
        m.wf(),
        sorted_by(m.in_room(), participant_keys(m.in_room()), shown),
    ensures
        forall|id: u128|
            #[trigger] m.participants.has(id) && m.connections.has(id) && (
            m.connections.map[id].state is Connecting || m.connections.map[id].state is Online
                || m.connections.map[id].state is Reconnecting) ==> exists|i: int|
                0 <= i < shown.len() && (#[trigger] shown[i]).id == id,
        forall|i: int|
            0 <= i < shown.len() ==> {
                let id = (#[trigger] shown[i]).id;
                &&& m.participants.has(id)
                &&& m.participants.map[id] == shown[i]
                &&& m.connections.has(id)
                &&& m.connections.map[id].state is Connecting
                    || m.connections.map[id].state is Online
                    || m.connections.map[id].state is Reconnecting
            },
        forall|i: int, j: int|
            0 <= i < j < shown.len() ==> (#[trigger] shown[i]).id != (#[trigger] shown[j]).id
                && shown[i].created_at <= shown[j].created_at,
{
    let all = m.participants.list();
    let list = m.in_room();
    let p = |p: ParticipantModel| m.holds_place(p.id);
    lemma_list_is_the_table(m.participants);
    lemma_list_is_distinct(m.participants, |p: ParticipantModel| p.id);
    lemma_filter_is_distinct(all, p);
    broadcast use vstd::seq_lib::group_filter_ensures;
    assert forall|x: ParticipantModel| #[trigger] list.contains(x) implies m.participants.has(x.id)
        && m.participants.map[x.id] == x && p(x) by {
        let at = choose|at: int| 0 <= at < list.len() && list[at] == x;
        assert(p(list[at]));
        all.lemma_filter_contains_rev(p, x);
        let k = choose|k: u128| m.participants.has(k) && #[trigger] m.participants.map[k] == x;
        assert(m.participants.map[k].id == k);
    }
    lemma_listed_participants(m, list, shown);
    assert forall|id: u128|
        #[trigger] m.participants.has(id) && m.connections.has(id) && (
        m.connections.map[id].state is Connecting || m.connections.map[id].state is Online
            || m.connections.map[id].state is Reconnecting) implies exists|i: int|
        0 <= i < shown.len() && (#[trigger] shown[i]).id == id by {
        let x = m.participants.map[id];
        assert(x.id == id);
        assert(all.contains(x));
        let at = choose|at: int| 0 <= at < all.len() && all[at] == x;
        assert(p(all[at]));
        assert(list.contains(x));
        assert(shown.contains(x));
        let i = choose|i: int| 0 <= i < shown.len() && shown[i] == x;
        assert(shown[i].id == id);
    }
    assert forall|i: int| 0 <= i < shown.len() implies {
        let id = (#[trigger] shown[i]).id;
        &&& m.participants.has(id)
        &&& m.participants.map[id] == shown[i]
        &&& m.connections.has(id)
        &&& m.connections.map[id].state is Connecting || m.connections.map[id].state is Online
            || m.connections.map[id].state is Reconnecting
    } by {
        assert(shown.contains(shown[i]));
        assert(list.contains(shown[i]));
        assert(p(shown[i]));
    }
}

// What each operation writes down.

/// A participant who connects has a connection under the new generation, which is given 60
/// seconds; it replaces the one before, and no other connection or record is touched.
pub proof fn law_connecting_is_written_down(
    m: StoreModel,
    id: u128,
    generation: u128,
    now: i128,
    other: u128,
)
    requires
        now + 60_000_000_000 <= i128::MAX,
    ensures
        ({
            let after = m.connecting(id, generation, now);
            let c = after.connections.map[id];
            &&& after.connections.has(id)
            &&& c.generation == generation
            &&& c.state is Connecting
            &&& c.livekit_participant_sid is None
            &&& c.reconnect_deadline is Some
            &&& c.reconnect_deadline->0 == now + 60_000_000_000
            &&& c.changed_at == now
            &&& other != id ==> after.connections.get(other) == m.connections.get(other)
            &&& only_connections_differ(m, after)
        }),
{
}

/// Whether two stores hold the same records but for the connections.
pub open spec fn only_connections_differ(a: StoreModel, b: StoreModel) -> bool {
    &&& a.participants == b.participants
    &&& a.credentials == b.credentials
    &&& a.sessions == b.sessions
    &&& a.recordings == b.recordings
    &&& a.recording_rooms == b.recording_rooms
    &&& a.segments == b.segments
    &&& a.webhooks == b.webhooks
    &&& a.empty_since == b.empty_since
    &&& a.host_credential == b.host_credential
}

/// A connection comes online, is waited for or is left only under its present generation, and
/// is not waited for once it was left. What is known of the others stays.
pub proof fn law_connection_news_are_written_down(
    m: StoreModel,
    id: u128,
    generation: u128,
    sid: Option<Seq<char>>,
    deadline: i128,
    now: i128,
    other: u128,
)
    ensures
        ({
            let meant = m.connections.has(id) && m.connections.map[id].generation == generation;
            let was = m.connections.map[id];
            let (online, came) = m.online(id, generation, sid, now);
            let (away, waits) = m.reconnecting(id, generation, deadline, now);
            let (gone, left) = m.left(id, generation, now);
            &&& came == meant
            &&& left == meant
            &&& waits == (meant && !(was.state is Left))
            &&& !came ==> online == m
            &&& !waits ==> away == m
            &&& !left ==> gone == m
            &&& came ==> online.connections.get(id) == Some(
                ConnectionModel {
                    generation,
                    livekit_participant_sid: sid,
                    state: ConnectionState::Online,
                    reconnect_deadline: None,
                    changed_at: now,
                },
            )
            &&& waits ==> away.connections.get(id) == Some(
                ConnectionModel {
                    generation,
                    livekit_participant_sid: was.livekit_participant_sid,
                    state: ConnectionState::Reconnecting,
                    reconnect_deadline: Some(deadline),
                    changed_at: now,
                },
            )
            &&& left ==> gone.connections.get(id) == Some(
                ConnectionModel {
                    generation,
                    livekit_participant_sid: was.livekit_participant_sid,
                    state: ConnectionState::Left,
                    reconnect_deadline: None,
                    changed_at: now,
                },
            )
            &&& other != id ==> {
                &&& online.connections.get(other) == m.connections.get(other)
                &&& away.connections.get(other) == m.connections.get(other)
                &&& gone.connections.get(other) == m.connections.get(other)
            }
            &&& only_connections_differ(m, online)
            &&& only_connections_differ(m, away)
            &&& only_connections_differ(m, gone)
        }),
{
}

/// When deadlines are applied, a connection that is being made or waited for goes offline if
/// its deadline is now or was before; every other connection, and every other record, stays
/// as it is.
pub proof fn law_deadlines_are_applied(m: StoreModel, now: i128, k: u128)
    ensures
        ({
            let after = m.expire(now);
            let was = m.connections.map[k];
            let is = after.connections.map[k];
            &&& after.connections.has(k) == m.connections.has(k)
            &&& only_connections_differ(m, after)
            &&& m.connections.has(k) ==> if (was.state is Connecting || was.state is Reconnecting)
                && was.reconnect_deadline is Some && was.reconnect_deadline->0 <= now {
                &&& is.state is Offline
                &&& is.changed_at == now
                &&& is.generation == was.generation
                &&& is.livekit_participant_sid == was.livekit_participant_sid
                &&& is.reconnect_deadline == was.reconnect_deadline
            } else {
                is == was
            }
        }),
{
}

/// As many connections are overdue as are being made or waited for beyond their deadline.
pub proof fn law_overdue_connections_are_counted(m: StoreModel, now: i128)
    requires
        m.wf(),
    ensures
        m.overdue_count(now) == Set::new(
            |k: u128|
                m.connections.has(k) && (m.connections.map[k].state is Connecting
                    || m.connections.map[k].state is Reconnecting)
                    && m.connections.map[k].reconnect_deadline is Some
                    && m.connections.map[k].reconnect_deadline->0 <= now,
        ).len(),
{
    let p = |c: ConnectionModel| is_overdue(c, now);
    lemma_count_is_cardinality(m.connections, p);
    assert(Set::new(|k: u128| m.connections.has(k) && p(m.connections.map[k])) =~= Set::new(
        |k: u128|
            m.connections.has(k) && (m.connections.map[k].state is Connecting
                || m.connections.map[k].state is Reconnecting)
                && m.connections.map[k].reconnect_deadline is Some
                && m.connections.map[k].reconnect_deadline->0 <= now,
    ));
}

/// As many participants are in the room as have a connection that is being made, is online or
/// is waited for.
pub proof fn law_everyone_present_is_counted(m: StoreModel)
    requires
        m.wf(),
    ensures
        m.present_count() == Set::new(
            |k: u128|
                m.connections.has(k) && (m.connections.map[k].state is Connecting
                    || m.connections.map[k].state is Online
                    || m.connections.map[k].state is Reconnecting),
        ).len(),
{
    let p = |c: ConnectionModel| is_present(c.state);
    lemma_count_is_cardinality(m.connections, p);
    assert(Set::new(|k: u128| m.connections.has(k) && p(m.connections.map[k])) =~= Set::new(
        |k: u128|
            m.connections.has(k) && (m.connections.map[k].state is Connecting
                || m.connections.map[k].state is Online
                || m.connections.map[k].state is Reconnecting),
    ));
}

/// A newcomer is entered as given. Of one who is known the nickname, the role and the last
/// visit are replaced and nothing else; nobody else's record is touched.
pub proof fn law_participants_are_written_down(m: StoreModel, p: ParticipantModel, other: u128)
    ensures
        ({
            let after = m.upserted(p);
            let was = m.participants.map[p.id];
            &&& after.participants.has(p.id)
            &&& !m.participants.has(p.id) ==> after.participants.map[p.id] == p
            &&& m.participants.has(p.id) ==> after.participants.map[p.id] == (ParticipantModel {
                id: was.id,
                livekit_identity: was.livekit_identity,
                nickname: p.nickname,
                role: p.role,
                created_at: was.created_at,
                last_seen_at: p.last_seen_at,
            })
            &&& other != p.id ==> after.participants.get(other) == m.participants.get(other)
            &&& after == (StoreModel { participants: after.participants, ..m })
        }),
{
}

/// The hash of a resume token is kept with the instant at which the first one was issued and
/// that of the last; nobody else's is touched.
pub proof fn law_credentials_are_written_down(
    m: StoreModel,
    id: u128,
    hash: Seq<char>,
    now: i128,
    other: u128,
)
    ensures
        ({
            let after = m.with_credential(id, hash, now);
            let c = after.credentials.map[id];
            &&& after.credentials.has(id)
            &&& c.resume_token_hash == hash
            &&& c.rotated_at == now
            &&& c.created_at == if m.credentials.has(id) {
                m.credentials.map[id].created_at
            } else {
                now
            }
            &&& other != id ==> after.credentials.get(other) == m.credentials.get(other)
            &&& after == (StoreModel { credentials: after.credentials, ..m })
        }),
{
}

/// The active session is the one that is marked active, and there is none exactly where none
/// is marked.
pub proof fn law_active_session_is_the_marked_one(m: StoreModel, k: u128)
    requires
        m.wf(),
    ensures
        m.sessions.has(k) && m.sessions.map[k].active ==> m.active_session() == Some(
            m.sessions.map[k].session,
        ) && m.room_host() == m.sessions.map[k].session.host_participant_id,
        match m.active_session() {
            Some(s) => m.sessions.has(s.id) && m.sessions.map[s.id].active
                && m.sessions.map[s.id].session == s && m.room_host() == s.host_participant_id,
            None => !(m.sessions.has(k) && m.sessions.map[k].active) && m.room_host() is None,
        },
{
    if m.sessions.has(k) && m.sessions.map[k].active {
        assert(row_active(m.sessions, k));
    }
    if exists|id: u128| row_active(m.sessions, id) {
        let chosen = choose|id: u128| row_active(m.sessions, id);
        assert(row_active(m.sessions, chosen));
        assert(m.sessions.map[chosen].session.id == chosen);
        if m.sessions.has(k) && m.sessions.map[k].active {
            assert(m.sessions.map[chosen].active && m.sessions.map[k].active);
        }
    }
}

/// Where a session is active it is kept. Else one is opened: active from now on, without a
/// host, and numbered one above the greatest there was, or 1. That fails only where no greater
/// number can be written or the identifier is taken.
pub proof fn law_session_is_opened_once(m: StoreModel, id: u128, now: i128)
    requires
        m.wf(),
    ensures
        ({
            let (after, session) = m.ensured(id, now);
            let none_active = forall|k: u128|
                m.sessions.has(k) ==> !(#[trigger] m.sessions.map[k]).active;
            let exhausted = exists|k: u128|
                m.sessions.has(k) && (#[trigger] m.sessions.map[k]).session.generation == i64::MAX;
            &&& !none_active ==> after == m && session is Ok && m.sessions.has(session->Ok_0.id)
                && m.sessions.map[session->Ok_0.id].active
                && m.sessions.map[session->Ok_0.id].session == session->Ok_0
            &&& none_active && exhausted ==> after == m && session is Err
                && session->Err_0 is GenerationsExhausted
            &&& none_active && !exhausted && m.sessions.has(id) ==> after == m && session is Err
                && session->Err_0 is IdTaken
            &&& none_active && !exhausted && !m.sessions.has(id) ==> {
                let row = after.sessions.map[id];
                &&& session is Ok
                &&& session->Ok_0 == row.session
                &&& after == (StoreModel { sessions: m.sessions.put(id, row), ..m })
                &&& row.session.id == id
                &&& row.session.host_participant_id is None
                &&& row.active
                &&& row.opened_at == now
                &&& row.closed_at is None
                &&& forall|k: u128|
                    m.sessions.has(k) ==> (#[trigger] m.sessions.map[k]).session.generation
                        < row.session.generation
                &&& (row.session.generation == 1 && m.sessions.keys.len() == 0) || exists|k: u128|
                    m.sessions.has(k) && (#[trigger] m.sessions.map[k]).session.generation + 1
                        == row.session.generation
            }
        }),
{
    let list = m.sessions.list();
    let (after, session) = m.ensured(id, now);
    lemma_top(list);
    lemma_list_is_the_table(m.sessions);
    assert forall|k: u128| m.sessions.has(k) implies (
    #[trigger] m.sessions.map[k]).session.generation <= top_generation(list) by {
        let i = choose|i: int| 0 <= i < list.len() && list[i] == m.sessions.map[k];
        assert(list[i].session.generation <= top_generation(list));
    }
    if list.len() > 0 {
        lemma_top_is_attained(list);
        let i = choose|i: int|
            0 <= i < list.len() && (#[trigger] list[i]).session.generation == top_generation(list);
        let k = m.sessions.keys[i];
        assert(m.sessions.keys.contains(k));
        assert(m.sessions.has(k) && m.sessions.map[k].session.generation == top_generation(list));
    }
    if exists|k: u128| row_active(m.sessions, k) {
        let chosen = choose|k: u128| row_active(m.sessions, k);
        assert(m.sessions.has(chosen) && m.sessions.map[chosen].active);
        law_active_session_is_the_marked_one(m, chosen);
    } else {
        assert forall|k: u128| m.sessions.has(k) implies !(
        #[trigger] m.sessions.map[k]).active by {
            assert(!row_active(m.sessions, k));
        }
    }
}

/// A claim makes the claimant host of the session, and host by role where there is a record of
/// them, if the session has no host; it changes nothing otherwise, and nothing else.
pub proof fn law_claims_are_written_down(
    m: StoreModel,
    claimant: u128,
    id: u128,
    now: i128,
    other: u128,
)
    requires
        m.wf(),
    ensures
        ({
            let (opened, session) = m.ensured(id, now);
            let (after, claimed) = m.claimed(claimant, id, now);
            &&& session is Err ==> after == m && claimed is Err
            &&& session is Ok && session->Ok_0.host_participant_id is Some ==> after == opened
                && claimed == Ok::<bool, StoreError>(false)
            &&& session is Ok && session->Ok_0.host_participant_id is None ==> {
                let key = session->Ok_0.id;
                let row = after.sessions.map[key];
                let was = opened.sessions.map[key];
                &&& claimed == Ok::<bool, StoreError>(true)
                &&& after.sessions.has(key)
                &&& row.session.id == was.session.id
                &&& row.session.generation == was.session.generation
                &&& row.session.host_participant_id == Some(claimant)
                &&& row.active == was.active
                &&& row.opened_at == was.opened_at
                &&& row.closed_at == was.closed_at
                &&& other != key ==> after.sessions.get(other) == opened.sessions.get(other)
                &&& after.participants.has(claimant) == m.participants.has(claimant)
                &&& m.participants.has(claimant) ==> after.participants.map[claimant] == (
                ParticipantModel { role: ParticipantRole::Host, ..m.participants.map[claimant] })
                &&& other != claimant ==> after.participants.get(other) == m.participants.get(
                    other,
                )
                &&& after == (StoreModel {
                    sessions: after.sessions,
                    participants: after.participants,
                    ..m
                })
            }
        }),
{
    lemma_ensured_is_active(m, id, now);
}

/// The session of a room in which nobody has a connection that is being made, is online or is
/// waited for is closed: no longer active, closed now, and its host a participant again.
/// Nothing is closed while somebody has one, or where no session is active.
pub proof fn law_closing_is_written_down(m: StoreModel, now: i128, other: u128)
    requires
        m.wf(),
    ensures
        ({
            let (after, closed) = m.closed_if_empty(now);
            let somebody = exists|k: u128|
                m.connections.has(k) && ((#[trigger] m.connections.map[k]).state is Connecting
                    || m.connections.map[k].state is Online
                    || m.connections.map[k].state is Reconnecting);
            &&& somebody ==> after == m && closed is None
            &&& m.active_session() is None ==> after == m && closed is None
            &&& !somebody && m.active_session() is Some ==> {
                let session = m.active_session()->0;
                let was = m.sessions.map[session.id];
                let row = after.sessions.map[session.id];
                &&& closed == Some(session)
                &&& after.sessions.has(session.id)
                &&& !row.active
                &&& row.closed_at == Some(now)
                &&& row.session == was.session
                &&& row.opened_at == was.opened_at
                &&& other != session.id ==> after.sessions.get(other) == m.sessions.get(other)
                &&& after.participants.get(other) == match m.participants.get(other) {
                    Some(p) => if session.host_participant_id == Some(other) {
                        Some(ParticipantModel { role: ParticipantRole::Participant, ..p })
                    } else {
                        Some(p)
                    },
                    None => None,
                }
                &&& after == (StoreModel {
                    sessions: after.sessions,
                    participants: after.participants,
                    ..m
                })
            }
        }),
{
    let (after, closed) = m.closed_if_empty(now);
    if exists|k: u128|
        m.connections.has(k) && ((#[trigger] m.connections.map[k]).state is Connecting
            || m.connections.map[k].state is Online
            || m.connections.map[k].state is Reconnecting) {
        let k = choose|k: u128|
            m.connections.has(k) && ((#[trigger] m.connections.map[k]).state is Connecting
                || m.connections.map[k].state is Online
                || m.connections.map[k].state is Reconnecting);
        assert(is_present(m.connections.map[k].state));
        assert(m.occupied());
    }
    if m.occupied() {
        let k = choose|k: u128|
            m.connections.has(k) && is_present((#[trigger] m.connections.map[k]).state);
        assert(m.connections.has(k) && (m.connections.map[k].state is Connecting
            || m.connections.map[k].state is Online
            || m.connections.map[k].state is Reconnecting));
    }
    law_active_session_is_the_marked_one(m, other);
}

/// A recording is entered as given, not yet stopped, together with the session it belongs to,
/// unless its identifier is taken.
pub proof fn law_recordings_are_written_down(
    m: StoreModel,
    r: RecordingModel,
    session: RoomSession,
    other: u128,
)
    ensures
        ({
            let (after, done) = m.with_recording(r, session);
            let taken = m.recordings.has(r.id) || m.recording_rooms.has(r.id);
            &&& taken ==> after == m && done is Err && done->Err_0 is IdTaken
            &&& !taken ==> {
                let row = after.recordings.map[r.id];
                &&& done is Ok
                &&& after.recordings.has(r.id)
                &&& row == (RecordingModel { stopped_at_utc: None, ..r })
                &&& after.recording_rooms.has(r.id)
                &&& after.recording_rooms.map[r.id].room_session_id == session.id
                &&& after.recording_rooms.map[r.id].room_generation == session.generation
                &&& other != r.id ==> after.recordings.get(other) == m.recordings.get(other)
                    && after.recording_rooms.get(other) == m.recording_rooms.get(other)
                &&& after == (StoreModel {
                    recordings: after.recordings,
                    recording_rooms: after.recording_rooms,
                    ..m
                })
            }
        }),
{
}

/// The session of a recording is the one it was entered with, under the number it had then and
/// with the host it has.
pub proof fn law_recording_keeps_its_session(m: StoreModel, recording_id: u128)
    requires
        m.wf(),
    ensures
        match m.recording_room(recording_id) {
            Some(s) => {
                &&& m.recording_rooms.has(recording_id)
                &&& m.sessions.has(s.id)
                &&& s.id == m.recording_rooms.map[recording_id].room_session_id
                &&& s.generation == m.recording_rooms.map[recording_id].room_generation
                &&& s.host_participant_id == m.sessions.map[s.id].session.host_participant_id
            },
            None => !m.recording_rooms.has(recording_id) || !m.sessions.has(
                m.recording_rooms.map[recording_id].room_session_id,
            ),
        },
{
}

/// The progress of a recording is its status, its end and its version; nothing else of it
/// changes, and no other record.
pub proof fn law_progress_is_written_down(m: StoreModel, r: RecordingModel, other: u128)
    ensures
        ({
            let after = m.with_progress(r);
            let was = m.recordings.map[r.id];
            &&& !m.recordings.has(r.id) ==> after == m
            &&& m.recordings.has(r.id) ==> after.recordings.get(r.id) == Some(
                RecordingModel {
                    id: was.id,
                    status: r.status,
                    started_at_utc: was.started_at_utc,
                    stopped_at_utc: r.stopped_at_utc,
                    target_sample_rate: was.target_sample_rate,
                    target_channels: was.target_channels,
                    target_sample_format: was.target_sample_format,
                    output_dir: was.output_dir,
                    version: r.version,
                },
            )
            &&& other != r.id ==> after.recordings.get(other) == m.recordings.get(other)
            &&& after == (StoreModel { recordings: after.recordings, ..m })
        }),
{
}

/// Of two recordings in progress that could be meant, the one that was entered first is, where
/// they have the same status and started at the same instant.
pub proof fn law_first_of_equal_recordings_is_meant(m: StoreModel, i: int, j: int)
    requires
        m.wf(),
        0 <= i < j < m.recordings.keys.len(),
        m.active_recording() == Some(m.recordings.map[m.recordings.keys[j]]),
    ensures
        ({
            let first = m.recordings.map[m.recordings.keys[i]];
            let second = m.recordings.map[m.recordings.keys[j]];
            first.status == second.status ==> first.started_at_utc < second.started_at_utc
        }),
{
    let rows = m.recordings.list();
    let second = m.recordings.map[m.recordings.keys[j]];
    lemma_latest(rows, RecordingStatus::Starting);
    lemma_latest(rows, RecordingStatus::Recording);
    lemma_latest(rows, RecordingStatus::Stopping);
    assert(rows[j] == second && rows[i] == m.recordings.map[m.recordings.keys[i]]);
    lemma_list_is_distinct(m.recordings, |r: RecordingModel| r.id);
    if rows[i].status == second.status {
        lemma_latest_is_first(rows, second.status, i, j);
    }
}

proof fn lemma_latest_is_first(rows: Seq<RecordingModel>, status: RecordingStatus, i: int, j: int)
    requires
        rows.no_duplicates(),
        0 <= i < j < rows.len(),
        rows[i].status == status,
        rows[j].status == status,
        latest_with(rows, status) == Some(rows[j]),
    ensures
        rows[i].started_at_utc < rows[j].started_at_utc,
    decreases rows.len(),
{
    let shorter = rows.drop_last();
    lemma_latest(shorter, status);
    assert(shorter.no_duplicates());
    assert(shorter[i] == rows[i]);
    if j < rows.len() - 1 {
        assert(shorter[j] == rows[j]);
        assert(rows[rows.len() - 1] == rows.last());
        assert(rows[j] != rows[rows.len() - 1]);
        lemma_latest_is_first(shorter, status, i, j);
    } else {
        let before = latest_with(shorter, status);
        if before is Some {
            assert(rows[i].started_at_utc <= before->0.started_at_utc);
            if before->0 == rows[j] {
                let k = choose|k: int| 0 <= k < shorter.len() && shorter[k] == before->0;
                assert(rows[k] == rows[j]);
            }
        }
    }
}

/// As many records are counted as there are keys under which one stands that counts.
pub proof fn lemma_count_is_cardinality<M>(rows: crate::table::Rows<M>, p: spec_fn(M) -> bool)
    requires
        rows.wf(),
    ensures
        rows.count(p) == Set::new(|k: u128| rows.has(k) && p(rows.map[k])).len(),
{
    lemma_keys_counted(rows, p, rows.keys.len() as int);
    assert(rows.list().take(rows.keys.len() as int) =~= rows.list());
    assert(Set::new(|k: u128| rows.keys.take(rows.keys.len() as int).contains(k) && p(rows.map[k]))
        =~= Set::new(|k: u128| rows.has(k) && p(rows.map[k]))) by {
        assert(rows.keys.take(rows.keys.len() as int) =~= rows.keys);
    }
}

proof fn lemma_keys_counted<M>(rows: crate::table::Rows<M>, p: spec_fn(M) -> bool, n: int)
    requires
        rows.wf(),
        0 <= n <= rows.keys.len(),
    ensures
        ({
            let found = Set::new(|k: u128| rows.keys.take(n).contains(k) && p(rows.map[k]));
            found.finite() && rows.list().take(n).filter(p).len() == found.len()
        }),
    decreases n,
{
    reveal(Seq::filter);
    let found = Set::new(|k: u128| rows.keys.take(n).contains(k) && p(rows.map[k]));
    if n == 0 {
        assert(found =~= Set::empty());
    } else {
        lemma_keys_counted(rows, p, n - 1);
        let fewer = Set::new(|k: u128| rows.keys.take(n - 1).contains(k) && p(rows.map[k]));
        let key = rows.keys[n - 1];
        assert(rows.list().take(n).drop_last() =~= rows.list().take(n - 1));
        assert(rows.list().take(n).last() == rows.map[key]);
        let upto = rows.keys.take(n);
        let before = rows.keys.take(n - 1);
        assert forall|k: u128| #[trigger] upto.contains(k) <==> before.contains(k) || k == key by {
            if before.contains(k) {
                let i = choose|i: int| 0 <= i < before.len() && before[i] == k;
                assert(upto[i] == k);
            }
            if k == key {
                assert(upto[n - 1] == k);
            }
            if upto.contains(k) && k != key {
                let i = choose|i: int| 0 <= i < upto.len() && upto[i] == k;
                assert(before[i] == k);
            }
        }
        assert(!before.contains(key)) by {
            if before.contains(key) {
                let i = choose|i: int| 0 <= i < before.len() && before[i] == key;
                assert(rows.keys[i] == rows.keys[n - 1]);
            }
        }
        if p(rows.map[key]) {
            assert(found =~= fewer.insert(key));
        } else {
            assert(found =~= fewer);
        }
    }
}

/// The segment of a track is the one that names the recording and the track, and there is none
/// exactly where none does.
pub proof fn law_track_is_found(
    m: StoreModel,
    recording_id: u128,
    track_sid: Seq<char>,
    k: u128,
)
    requires
        m.wf(),
    ensures
        ({
            let named = m.segments.has(k) && m.segments.map[k].segment.recording_id == recording_id
                && m.segments.map[k].segment.livekit_track_sid == track_sid;
            &&& named ==> m.track(recording_id, track_sid) == Some(m.segments.map[k])
                && m.track_key(recording_id, track_sid) == Some(k)
            &&& match m.track(recording_id, track_sid) {
                Some(row) => m.segments.get(row.segment.id) == Some(row)
                    && row.segment.recording_id == recording_id && row.segment.livekit_track_sid
                    == track_sid,
                None => !named,
            }
        }),
{
    let named = m.segments.has(k) && m.segments.map[k].segment.recording_id == recording_id
        && m.segments.map[k].segment.livekit_track_sid == track_sid;
    if named {
        assert(row_holds(m.segments, k, recording_id, track_sid));
    }
    if exists|key: u128| row_holds(m.segments, key, recording_id, track_sid) {
        let chosen = choose|key: u128| row_holds(m.segments, key, recording_id, track_sid);
        assert(row_holds(m.segments, chosen, recording_id, track_sid));
        assert(m.segments.map[chosen].segment.id == chosen);
        if named {
            assert(is_track(
                m.segments.map[k],
                m.segments.map[chosen].segment.recording_id,
                m.segments.map[chosen].segment.livekit_track_sid,
            ));
        }
    }
}

/// A segment is entered as given, without audio and without an egress, unless a number of it
/// does not fit, its identifier is taken or its track has one in the recording.
pub proof fn law_segments_are_written_down(m: StoreModel, s: SegmentModel, other: u128)
    requires
        m.wf(),
    ensures
        ({
            let (after, added) = m.with_segment(s);
            let fits = s.first_frame_at_ns <= i64::MAX && s.timeline_start_sample <= i64::MAX;
            let taken = m.segments.has(s.id) || exists|k: u128|
                m.segments.has(k) && (#[trigger] m.segments.map[k]).segment.recording_id
                    == s.recording_id && m.segments.map[k].segment.livekit_track_sid
                    == s.livekit_track_sid;
            &&& !fits ==> after == m && added is Err && added->Err_0 is OutOfRange
            &&& fits && taken ==> after == m && added == Ok::<bool, StoreError>(false)
            &&& fits && !taken ==> {
                &&& added == Ok::<bool, StoreError>(true)
                &&& after.segments.get(s.id) == Some(
                    SegmentRowModel {
                        segment: SegmentModel {
                            id: s.id,
                            recording_id: s.recording_id,
                            participant_id: s.participant_id,
                            livekit_track_sid: s.livekit_track_sid,
                            segment_index: s.segment_index,
                            first_frame_at_ns: s.first_frame_at_ns,
                            last_frame_at_ns: None,
                            timeline_start_sample: s.timeline_start_sample,
                            sample_count: 0,
                            pcm_path: s.pcm_path,
                            status: s.status,
                        },
                        egress_id: None,
                    },
                )
                &&& other != s.id ==> after.segments.get(other) == m.segments.get(other)
                &&& after == (StoreModel { segments: after.segments, ..m })
            }
        }),
{
    if exists|k: u128|
        m.segments.has(k) && (#[trigger] m.segments.map[k]).segment.recording_id == s.recording_id
            && m.segments.map[k].segment.livekit_track_sid == s.livekit_track_sid {
        let k = choose|k: u128|
            m.segments.has(k) && (#[trigger] m.segments.map[k]).segment.recording_id
                == s.recording_id && m.segments.map[k].segment.livekit_track_sid
                == s.livekit_track_sid;
        law_track_is_found(m, s.recording_id, s.livekit_track_sid, k);
    }
    law_track_is_found(m, s.recording_id, s.livekit_track_sid, s.id);
    if let Some(row) = m.track(s.recording_id, s.livekit_track_sid) {
        assert(m.segments.map[row.segment.id].segment.recording_id == s.recording_id);
    }
}

/// What is noted of a track is noted in its segment alone: of its egress, that and the status;
/// of its progress, the first frame, the place, the samples and the status; at its end, the
/// last frame and the samples, and it is closed. The rest of the segment stays as it was, and
/// so does every other record.
pub proof fn law_news_of_a_track_are_written_down(
    m: StoreModel,
    recording_id: u128,
    track_sid: Seq<char>,
    key: u128,
    egress_id: Option<Seq<char>>,
    first_ns: u64,
    start: u64,
    last_ns: u64,
    samples: u64,
    status: TrackSegmentStatus,
    other: u128,
)
    requires
        m.wf(),
        m.segments.has(key),
        m.segments.map[key].segment.recording_id == recording_id,
        m.segments.map[key].segment.livekit_track_sid == track_sid,
    ensures
        ({
            let was = m.segments.map[key];
            let fed = m.with_egress(recording_id, track_sid, egress_id, status);
            let come = m.with_samples(recording_id, track_sid, first_ns, start, samples, status);
            let ended = m.with_end(recording_id, track_sid, last_ns, samples);
            &&& fed.segments.get(key) == Some(
                SegmentRowModel { segment: SegmentModel { status, ..was.segment }, egress_id },
            )
            &&& come.segments.get(key) == Some(
                SegmentRowModel {
                    segment: SegmentModel {
                        id: was.segment.id,
                        recording_id,
                        participant_id: was.segment.participant_id,
                        livekit_track_sid: track_sid,
                        segment_index: was.segment.segment_index,
                        first_frame_at_ns: first_ns,
                        last_frame_at_ns: was.segment.last_frame_at_ns,
                        timeline_start_sample: start,
                        sample_count: samples,
                        pcm_path: was.segment.pcm_path,
                        status,
                    },
                    egress_id: was.egress_id,
                },
            )
            &&& ended.segments.get(key) == Some(
                SegmentRowModel {
                    segment: SegmentModel {
                        id: was.segment.id,
                        recording_id,
                        participant_id: was.segment.participant_id,
                        livekit_track_sid: track_sid,
                        segment_index: was.segment.segment_index,
                        first_frame_at_ns: was.segment.first_frame_at_ns,
                        last_frame_at_ns: Some(last_ns),
                        timeline_start_sample: was.segment.timeline_start_sample,
                        sample_count: samples,
                        pcm_path: was.segment.pcm_path,
                        status: TrackSegmentStatus::Closed,
                    },
                    egress_id: was.egress_id,
                },
            )
            &&& other != key ==> {
                &&& fed.segments.get(other) == m.segments.get(other)
                &&& come.segments.get(other) == m.segments.get(other)
                &&& ended.segments.get(other) == m.segments.get(other)
            }
            &&& fed == (StoreModel { segments: fed.segments, ..m })
            &&& come == (StoreModel { segments: come.segments, ..m })
            &&& ended == (StoreModel { segments: ended.segments, ..m })
        }),
{
    law_track_is_found(m, recording_id, track_sid, key);
}

/// News of a track of which there is no segment change nothing.
pub proof fn law_news_of_an_unknown_track_change_nothing(
    m: StoreModel,
    recording_id: u128,
    track_sid: Seq<char>,
    egress_id: Option<Seq<char>>,
    first_ns: u64,
    start: u64,
    last_ns: u64,
    samples: u64,
    status: TrackSegmentStatus,
)
    requires
        m.wf(),
        forall|k: u128|
            m.segments.has(k) && (#[trigger] m.segments.map[k]).segment.recording_id
                == recording_id ==> m.segments.map[k].segment.livekit_track_sid != track_sid,
    ensures
        m.with_egress(recording_id, track_sid, egress_id, status) == m,
        m.with_samples(recording_id, track_sid, first_ns, start, samples, status) == m,
        m.with_end(recording_id, track_sid, last_ns, samples) == m,
{
    law_track_is_found(m, recording_id, track_sid, 0);
    if let Some(row) = m.track(recording_id, track_sid) {
        assert(m.segments.map[row.segment.id].segment.recording_id == recording_id);
    }
}

/// A room session is loaded unless its identifier or its number is taken, another is active
/// beside it, or the active one of the two has the lesser number.
pub proof fn law_which_sessions_are_loaded(m: StoreModel, row: SessionRow)
    ensures
        loadable_session(m, row) <==> !m.sessions.has(row.session.id) && forall|k: u128|
            m.sessions.has(k) ==> {
                let other = #[trigger] m.sessions.map[k];
                &&& other.session.generation != row.session.generation
                &&& !(other.active && row.active)
                &&& row.active ==> other.session.generation < row.session.generation
                &&& other.active ==> row.session.generation < other.session.generation
            },
{
    if loadable_session(m, row) {
        assert forall|k: u128| m.sessions.has(k) implies {
            let other = #[trigger] m.sessions.map[k];
            &&& other.session.generation != row.session.generation
            &&& !(other.active && row.active)
            &&& row.active ==> other.session.generation < row.session.generation
            &&& other.active ==> row.session.generation < other.session.generation
        } by {
            assert(sessions_agree(m.sessions.map[k], row));
        }
    }
}

/// A store begins empty.
pub proof fn law_store_begins_empty(k: u128, text: Seq<char>)
    ensures
        ({
            let m = StoreModel::fresh();
            &&& m.wf()
            &&& !m.participants.has(k) && !m.credentials.has(k) && !m.connections.has(k)
            &&& !m.sessions.has(k) && !m.recordings.has(k) && !m.recording_rooms.has(k)
            &&& !m.segments.has(k) && !m.webhooks.contains(text)
            &&& m.empty_since is None && m.host_credential is None
        }),
{
}

} // verus!
