//! The log of a recording: one JSON object per line.

use vstd::prelude::*;

use crate::auth::str_of;
use crate::ids::{hyphenated_text, uuid_text};
use crate::json::{json_object, json_string, plain, plain_value, Member, ObjectWriter};
use crate::text::decimal_text;

verus! {

/// The lines of a log: each event with a line break behind it.
pub open spec fn log_lines(events: Seq<Seq<char>>) -> Seq<char>
    decreases events.len(),
{
    if events.len() == 0 {
        Seq::empty()
    } else {
        events[0] + "\n"@ + log_lines(events.skip(1))
    }
}

/// The lines of a text, each up to a line break; what stands behind the last one is no line.
pub open spec fn lines_of(text: Seq<char>) -> Seq<Seq<char>>
    decreases text.len(),
{
    if text.contains('\n') {
        let end = text.index_of_first('\n')->0;
        if 0 <= end < text.len() {
            seq![text.take(end)] + lines_of(text.skip(end + 1))
        } else {
            Seq::empty()
        }
    } else {
        Seq::empty()
    }
}

proof fn lemma_log_push(events: Seq<Seq<char>>, event: Seq<char>)
    ensures
        log_lines(events.push(event)) == log_lines(events) + event + "\n"@,
    decreases events.len(),
{
    let all = events.push(event);
    if events.len() == 0 {
        assert(all.skip(1) =~= Seq::empty());
        assert(log_lines(all.skip(1)) == Seq::<char>::empty());
        assert(log_lines(all) == all[0] + "\n"@ + log_lines(all.skip(1)));
        assert(log_lines(all) =~= log_lines(events) + event + "\n"@);
    } else {
        assert(all.skip(1) =~= events.skip(1).push(event));
        lemma_log_push(events.skip(1), event);
        assert(all[0] == events[0]);
        assert(log_lines(all) == all[0] + "\n"@ + log_lines(all.skip(1)));
        assert(log_lines(all) =~= log_lines(events) + event + "\n"@);
    }
}

/// Whether a text takes one line.
pub open spec fn one_line(text: Seq<char>) -> bool {
    forall|i: int| 0 <= i < text.len() ==> #[trigger] text[i] != '\n'
}

/// Whether a text is made of whole lines.
pub open spec fn whole_lines(text: Seq<char>) -> bool {
    text.len() == 0 || text.last() == '\n'
}

proof fn lemma_lines_joined(first: Seq<char>, second: Seq<char>)
    requires
        whole_lines(first),
    ensures
        lines_of(first + second) == lines_of(first) + lines_of(second),
    decreases first.len(),
{
    let text = first + second;
    if first.len() == 0 {
        assert(text =~= second);
        assert(lines_of(first) =~= Seq::empty());
        assert(lines_of(text) =~= lines_of(first) + lines_of(second));
    } else {
        assert(first[first.len() - 1] == '\n');
        assert(first.contains('\n'));
        first.index_of_first_ensures('\n');
        let end = first.index_of_first('\n')->0;
        assert(text[end] == '\n');
        assert(text.contains('\n'));
        text.index_of_first_ensures('\n');
        assert forall|i: int| 0 <= i < end implies text[i] != '\n' by {
            assert(text[i] == first[i]);
        }
        assert(text.index_of_first('\n') == Some(end));
        let rest = first.skip(end + 1);
        assert(text.skip(end + 1) =~= rest + second);
        assert(whole_lines(rest)) by {
            if rest.len() > 0 {
                assert(rest.last() == first.last());
            }
        }
        lemma_lines_joined(rest, second);
        assert(text.take(end) =~= first.take(end));
        assert(lines_of(text) =~= lines_of(first) + lines_of(second));
    }
}

proof fn lemma_one_more_line(text: Seq<char>, event: Seq<char>)
    requires
        whole_lines(text),
        one_line(event),
    ensures
        lines_of(text + event + "\n"@) == lines_of(text).push(event),
{
    reveal_strlit("\n");
    let line = event + "\n"@;
    lemma_lines_joined(text, line);
    assert(text + event + "\n"@ =~= text + line);
    assert(line[event.len() as int] == '\n');
    assert(line.contains('\n'));
    line.index_of_first_ensures('\n');
    assert forall|i: int| 0 <= i < event.len() implies line[i] != '\n' by {
        assert(line[i] == event[i]);
    }
    assert(line.index_of_first('\n') == Some(event.len() as int));
    assert(line.take(event.len() as int) =~= event);
    assert(line.skip(event.len() as int + 1) =~= Seq::empty());
    assert(lines_of(Seq::<char>::empty()) =~= Seq::empty());
    assert(lines_of(line) =~= seq![event]);
    assert(lines_of(text) + seq![event] =~= lines_of(text).push(event));
}

/// Appends an event to a log. What was there stays, and an event that takes one line is one
/// more line.
pub fn append_event(log: &mut String, event: &str)
    ensures
        final(log)@ == old(log)@ + event@ + "\n"@,
        whole_lines(final(log)@),
        whole_lines(old(log)@) && one_line(event@) ==> lines_of(final(log)@) == lines_of(
            old(log)@,
        ).push(event@),
        forall|before: Seq<char>, events: Seq<Seq<char>>|
            old(log)@ == #[trigger] (before + log_lines(events)) ==> final(log)@ == before
                + log_lines(events.push(event@)),
{
    log.append(event);
    log.append("\n");
    proof {
        reveal_strlit("\n");
        assert(log@.last() == '\n');
        if whole_lines(old(log)@) && one_line(event@) {
            lemma_one_more_line(old(log)@, event@);
        }
        assert forall|before: Seq<char>, events: Seq<Seq<char>>|
            old(log)@ == #[trigger] (before + log_lines(events)) implies log@ == before + log_lines(
            events.push(event@),
        ) by {
            lemma_log_push(events, event@);
            assert(log@ =~= before + log_lines(events.push(event@)));
        }
    }
}

/// A log of n events has n lines, and they are the events in the order in which they came.
pub proof fn law_log_holds_its_events(events: Seq<Seq<char>>)
    requires
        forall|i: int| 0 <= i < events.len() ==> one_line(#[trigger] events[i]),
    ensures
        lines_of(log_lines(events)) == events,
    decreases events.len(),
{
    reveal_strlit("\n");
    let text = log_lines(events);
    if events.len() == 0 {
        assert(lines_of(text) =~= events);
    } else {
        let first = events[0];
        let rest = events.skip(1);
        let end = first.len() as int;
        assert(text[end] == '\n');
        assert(text.contains('\n'));
        assert(one_line(events[0]));
        assert forall|k: int| 0 <= k < end implies text[k] != '\n' by {
            assert(text[k] == events[0][k]);
        }
        text.index_of_first_ensures('\n');
        assert(text.index_of_first('\n') == Some(end));
        assert(text.take(end) =~= first);
        assert(text.skip(end + 1) =~= log_lines(rest));
        assert forall|i: int| 0 <= i < rest.len() implies one_line(#[trigger] rest[i]) by {
            assert(rest[i] == events[i + 1]);
        }
        law_log_holds_its_events(rest);
        assert(lines_of(text) =~= events);
    }
}

/// The event that a recording reached a stage.
pub open spec fn recording_members(kind: Seq<char>, at: Seq<char>) -> Seq<Member> {
    seq![("at"@, json_string(at)), ("type"@, json_string(kind))]
}

/// The event that a recording reached a stage.
pub fn recording_event(kind: &str, at: &str) -> (event: String)
    ensures
        event@ == json_object(recording_members(kind@, at@)),
{
    let mut writer = ObjectWriter::new();
    writer.text("at", at);
    writer.text("type", kind);
    assert(writer@ =~= recording_members(kind@, at@));
    writer.finish()
}

/// The event that a participant left on purpose.
pub open spec fn left_members(participant_id: u128, at: Seq<char>) -> Seq<Member> {
    seq![
        ("at"@, json_string(at)),
        ("participant_id"@, json_string(hyphenated_text(participant_id))),
        ("reason"@, json_string("graceful"@)),
        ("type"@, json_string("participant_left"@)),
    ]
}

/// The event that a participant left on purpose.
pub fn left_event(participant_id: u128, at: &str) -> (event: String)
    ensures
        event@ == json_object(left_members(participant_id, at@)),
{
    let id = uuid_text(participant_id);
    let mut writer = ObjectWriter::new();
    writer.text("at", at);
    writer.text("participant_id", id.as_str());
    writer.text("reason", "graceful");
    writer.text("type", "participant_left");
    assert(writer@ =~= left_members(participant_id, at@));
    writer.finish()
}

/// The event that the media server reported something, with the participant and the track
/// that it is about, where it names them.
pub open spec fn livekit_members(
    name: Seq<char>,
    event_id: Seq<char>,
    participant_id: Option<u128>,
    track_sid: Option<Seq<char>>,
    at: Seq<char>,
) -> Seq<Member> {
    let start = seq![("at"@, json_string(at)), ("livekit_event"@, json_string(event_id))];
    let about = match participant_id {
        Some(id) => start.push(("participant_id"@, json_string(hyphenated_text(id)))),
        None => start,
    };
    let whole = match track_sid {
        Some(sid) => about.push(("track_sid"@, json_string(sid))),
        None => about,
    };
    whole.push(("type"@, json_string(name)))
}

/// The event that the media server reported something.
pub fn livekit_event(
    name: &str,
    event_id: &str,
    participant_id: Option<u128>,
    track_sid: Option<&str>,
    at: &str,
) -> (event: String)
    ensures
        event@ == json_object(
            livekit_members(name@, event_id@, participant_id, str_of(track_sid), at@),
        ),
{
    let mut writer = ObjectWriter::new();
    writer.text("at", at);
    writer.text("livekit_event", event_id);
    if let Some(id) = participant_id {
        let id = uuid_text(id);
        writer.text("participant_id", id.as_str());
    }
    if let Some(sid) = track_sid {
        writer.text("track_sid", sid);
    }
    writer.text("type", name);
    assert(writer@ =~= livekit_members(name@, event_id@, participant_id, str_of(track_sid), at@));
    writer.finish()
}

/// The event that an egress was started for a track.
pub open spec fn egress_started_members(
    participant_id: u128,
    track_sid: Seq<char>,
    egress_id: Seq<char>,
    at: Seq<char>,
) -> Seq<Member> {
    seq![
        ("at"@, json_string(at)),
        ("egress_id"@, json_string(egress_id)),
        ("participant_id"@, json_string(hyphenated_text(participant_id))),
        ("track_sid"@, json_string(track_sid)),
        ("type"@, json_string("egress_started"@)),
    ]
}

/// The event that an egress was started for a track.
pub fn egress_started_event(participant_id: u128, track_sid: &str, egress_id: &str, at: &str) -> (event:
    String)
    ensures
        event@ == json_object(
            egress_started_members(participant_id, track_sid@, egress_id@, at@),
        ),
{
    let id = uuid_text(participant_id);
    let mut writer = ObjectWriter::new();
    writer.text("at", at);
    writer.text("egress_id", egress_id);
    writer.text("participant_id", id.as_str());
    writer.text("track_sid", track_sid);
    writer.text("type", "egress_started");
    assert(writer@ =~= egress_started_members(participant_id, track_sid@, egress_id@, at@));
    writer.finish()
}

/// The event that the segment of a track was closed.
pub open spec fn segment_closed_members(
    participant_id: u128,
    track_sid: Seq<char>,
    samples: u64,
    at: Seq<char>,
) -> Seq<Member> {
    seq![
        ("at"@, json_string(at)),
        ("participant_id"@, json_string(hyphenated_text(participant_id))),
        ("samples"@, decimal_text(samples as nat)),
        ("track_sid"@, json_string(track_sid)),
        ("type"@, json_string("segment_closed"@)),
    ]
}

/// The event that the segment of a track was closed.
pub fn segment_closed_event(participant_id: u128, track_sid: &str, samples: u64, at: &str) -> (event:
    String)
    ensures
        event@ == json_object(segment_closed_members(participant_id, track_sid@, samples, at@)),
{
    let id = uuid_text(participant_id);
    let mut writer = ObjectWriter::new();
    writer.text("at", at);
    writer.text("participant_id", id.as_str());
    writer.number("samples", samples);
    writer.text("track_sid", track_sid);
    writer.text("type", "segment_closed");
    assert(writer@ =~= segment_closed_members(participant_id, track_sid@, samples, at@));
    writer.finish()
}

/// Every event is an object of plain members: it takes one line, and each member is found
/// in it again.
pub proof fn law_events_are_plain(
    kind: Seq<char>,
    event_id: Seq<char>,
    participant_id: u128,
    about: Option<u128>,
    track_sid: Seq<char>,
    track: Option<Seq<char>>,
    samples: u64,
    at: Seq<char>,
)
    ensures
        plain(recording_members(kind, at)),
        plain(left_members(participant_id, at)),
        plain(livekit_members(kind, event_id, about, track, at)),
        plain(egress_started_members(participant_id, track_sid, event_id, at)),
        plain(segment_closed_members(participant_id, track_sid, samples, at)),
{
    reveal_strlit("at");
    reveal_strlit("type");
    reveal_strlit("participant_id");
    reveal_strlit("reason");
    reveal_strlit("livekit_event");
    reveal_strlit("egress_id");
    reveal_strlit("track_sid");
    reveal_strlit("samples");
    reveal_strlit("$serde_json::private::RawValue");
    assert("at"@.len() == 2 && "type"@.len() == 4 && "participant_id"@.len() == 14
        && "reason"@.len() == 6 && "livekit_event"@.len() == 13 && "samples"@.len() == 7
        && "egress_id"@.len() == 9 && "track_sid"@.len() == 9
        && "$serde_json::private::RawValue"@.len() == 30);
    assert("egress_id"@[0] == 'e' && "track_sid"@[0] == 't');
    assert(plain_value(decimal_text(samples as nat)));
}

proof fn lemma_no_line_break(text: Seq<char>)
    ensures
        forall|i: int| 0 <= i < json_string(text).len() ==> #[trigger] json_string(text)[i] != '\n',
    decreases text.len(),
{
    lemma_escaped_no_line_break(text);
}

proof fn lemma_escape_no_line_break(c: char)
    ensures
        forall|i: int|
            0 <= i < crate::json::escaped(c).len() ==> #[trigger] crate::json::escaped(c)[i] != '\n',
{
    let v = c as int;
    assert(v == c as u32);
    if v < 32 {
        assert(0 <= v / 16 < 16 && 0 <= v % 16 < 16);
    }
}

proof fn lemma_escaped_no_line_break(text: Seq<char>)
    ensures
        forall|i: int|
            0 <= i < crate::json::escaped_all(text).len() ==> #[trigger] crate::json::escaped_all(
                text,
            )[i] != '\n',
    decreases text.len(),
{
    if text.len() > 0 {
        lemma_escaped_no_line_break(text.drop_last());
        let before = crate::json::escaped_all(text.drop_last());
        let last = crate::json::escaped(text.last());
        lemma_escape_no_line_break(text.last());
        assert forall|i: int|
            0 <= i < crate::json::escaped_all(text).len() implies #[trigger] crate::json::escaped_all(
            text,
        )[i] != '\n' by {
            if i < before.len() {
                assert(crate::json::escaped_all(text)[i] == before[i]);
            } else {
                assert(crate::json::escaped_all(text)[i] == last[i - before.len()]);
            }
        }
    }
}

proof fn lemma_members_no_line_break(members: Seq<crate::json::Member>)
    requires
        crate::json::plain(members),
    ensures
        forall|i: int|
            0 <= i < crate::json::json_members(members).len() ==> #[trigger] crate::json::json_members(
                members,
            )[i] != '\n',
    decreases members.len(),
{
    if members.len() > 0 {
        let shorter = members.drop_last();
        let last = members.last();
        assert(crate::json::plain(shorter)) by {
            assert forall|i: int| 0 <= i < shorter.len() implies crate::json::plain_value(
                (#[trigger] shorter[i]).1,
            ) by {
                assert(shorter[i] == members[i]);
            }
            assert forall|i: int, j: int| 0 <= i < j < shorter.len() implies (
            #[trigger] shorter[i]).0 != (#[trigger] shorter[j]).0 by {
                assert(shorter[i] == members[i] && shorter[j] == members[j]);
            }
        }
        lemma_members_no_line_break(shorter);
        lemma_no_line_break(last.0);
        assert(members[members.len() - 1] == last);
        lemma_value_no_line_break(last.1);
        let before = crate::json::json_members(shorter);
        let comma = if members.len() == 1 {
            Seq::<char>::empty()
        } else {
            seq![',']
        };
        let name = json_string(last.0);
        let all = crate::json::json_members(members);
        assert(all =~= before + comma + name + seq![':'] + last.1);
        assert forall|i: int| 0 <= i < all.len() implies #[trigger] all[i] != '\n' by {
            let a = before.len();
            let b = a + comma.len();
            let c = b + name.len();
            if i < a {
                assert(all[i] == before[i]);
            } else if i < b {
                assert(all[i] == comma[i - a]);
            } else if i < c {
                assert(all[i] == name[i - b]);
            } else if i == c {
                assert(all[i] == ':');
            } else {
                assert(all[i] == last.1[i - c - 1]);
            }
        }
    }
}

proof fn lemma_value_no_line_break(value: Seq<char>)
    requires
        crate::json::plain_value(value),
    ensures
        forall|i: int| 0 <= i < value.len() ==> #[trigger] value[i] != '\n',
{
    if exists|text: Seq<char>| value == #[trigger] json_string(text) {
        let text = choose|text: Seq<char>| value == #[trigger] json_string(text);
        lemma_no_line_break(text);
    } else if exists|n: u64| value == #[trigger] decimal_text(n as nat) {
        let n = choose|n: u64| value == #[trigger] decimal_text(n as nat);
        lemma_digits_no_line_break(n as nat);
    } else {
        reveal_strlit("true");
        reveal_strlit("false");
    }
}

proof fn lemma_digits_no_line_break(n: nat)
    ensures
        forall|i: int| 0 <= i < decimal_text(n).len() ==> #[trigger] decimal_text(n)[i] != '\n',
    decreases n,
{
    assert(0 <= n % 10 < 10);
    if n >= 10 {
        lemma_digits_no_line_break(n / 10);
        let before = decimal_text(n / 10);
        assert(decimal_text(n) =~= before.push(crate::text::digit((n % 10) as int)));
        assert forall|i: int| 0 <= i < decimal_text(n).len() implies #[trigger] decimal_text(n)[i]
            != '\n' by {
            if i < before.len() {
                assert(decimal_text(n)[i] == before[i]);
            }
        }
    }
}

/// An event of plain members takes one line: the line break behind it is its only one.
pub proof fn law_event_takes_one_line(members: Seq<crate::json::Member>)
    requires
        crate::json::plain(members),
    ensures
        one_line(json_object(members)),
{
    lemma_members_no_line_break(members);
    let inner = crate::json::json_members(members);
    let all = json_object(members);
    assert forall|i: int| 0 <= i < all.len() implies #[trigger] all[i] != '\n' by {
        if 0 < i < all.len() - 1 {
            assert(all[i] == inner[i - 1]);
        }
    }
}

/// What the log says: every event has an instant and a type. That a participant left names them
/// and that it was on purpose; that an egress was started, the participant, the track and the
/// egress; that a segment was closed, the participant, the track and the samples.
pub proof fn law_what_the_log_says(
    kind: Seq<char>,
    participant_id: u128,
    track_sid: Seq<char>,
    egress_id: Seq<char>,
    samples: u64,
    at: Seq<char>,
)
    ensures
        recording_members(kind, at) == seq![("at"@, json_string(at)), ("type"@, json_string(kind))],
        left_members(participant_id, at) == seq![
            ("at"@, json_string(at)),
            ("participant_id"@, json_string(hyphenated_text(participant_id))),
            ("reason"@, json_string("graceful"@)),
            ("type"@, json_string("participant_left"@)),
        ],
        egress_started_members(participant_id, track_sid, egress_id, at) == seq![
            ("at"@, json_string(at)),
            ("egress_id"@, json_string(egress_id)),
            ("participant_id"@, json_string(hyphenated_text(participant_id))),
            ("track_sid"@, json_string(track_sid)),
            ("type"@, json_string("egress_started"@)),
        ],
        segment_closed_members(participant_id, track_sid, samples, at) == seq![
            ("at"@, json_string(at)),
            ("participant_id"@, json_string(hyphenated_text(participant_id))),
            ("samples"@, decimal_text(samples as nat)),
            ("track_sid"@, json_string(track_sid)),
            ("type"@, json_string("segment_closed"@)),
        ],
{
}

/// What the log says of an event of the media server: its id and its name, and the participant
/// and the track as far as it names them.
pub proof fn law_what_the_log_says_of_the_media_server(
    name: Seq<char>,
    event_id: Seq<char>,
    participant_id: Option<u128>,
    track_sid: Option<Seq<char>>,
    at: Seq<char>,
)
    ensures
        ({
            let members = livekit_members(name, event_id, participant_id, track_sid, at);
            let n = members.len() as int;
            &&& n == 3 + (if participant_id is Some {
                1int
            } else {
                0
            }) + (if track_sid is Some {
                1int
            } else {
                0
            })
            &&& members[0] == ("at"@, json_string(at))
            &&& members[1] == ("livekit_event"@, json_string(event_id))
            &&& participant_id is Some ==> members[2] == (
                "participant_id"@,
                json_string(hyphenated_text(participant_id->0)),
            )
            &&& track_sid is Some ==> members[n - 2] == ("track_sid"@, json_string(track_sid->0))
            &&& members[n - 1] == ("type"@, json_string(name))
        }),
{
}

} // verus!
