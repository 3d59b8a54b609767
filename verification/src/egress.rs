//! Track egress: requests to the media server, signed callbacks and open streams.

use vstd::prelude::*;

use crate::crypto::{sign, signature};
use crate::ids::{hyphenated_text, uuid_text};
use crate::text::{decimal_text, push_decimal, same_text, trim_slashes, without_slashes};

verus! {

/// How long a callback may be used to open a stream, in seconds.
pub const CALLBACK_SECONDS: u64 = 300;

/// The address of a method of the media server.
pub open spec fn twirp_address(egress_url: Seq<char>, method: Seq<char>) -> Seq<char> {
    without_slashes(egress_url) + "/twirp/livekit."@ + method
}

/// The address of a method of the media server.
pub fn twirp_url(egress_url: &str, method: &str) -> (url: String)
    ensures
        url@ == twirp_address(egress_url@, method@),
{
    let mut url = trim_slashes(egress_url);
    url.append("/twirp/livekit.");
    url.append(method);
    url
}

/// What a callback's signature covers.
pub open spec fn callback_message(
    recording_id: u128,
    track_sid: Seq<char>,
    participant_id: u128,
    exp: u64,
) -> Seq<char> {
    hyphenated_text(recording_id) + ":"@ + track_sid + ":"@ + hyphenated_text(participant_id)
        + ":"@ + decimal_text(exp as nat)
}

/// The signature of a callback.
pub open spec fn callback_signature(
    secret: Seq<char>,
    recording_id: u128,
    track_sid: Seq<char>,
    participant_id: u128,
    exp: u64,
) -> Seq<char> {
    signature(secret, callback_message(recording_id, track_sid, participant_id, exp))
}

/// What a callback's signature covers.
pub fn egress_message(recording_id: u128, track_sid: &str, participant_id: u128, exp: u64) -> (message:
    String)
    ensures
        message@ == callback_message(recording_id, track_sid@, participant_id, exp),
{
    let mut message = uuid_text(recording_id);
    message.append(":");
    message.append(track_sid);
    message.append(":");
    let participant = uuid_text(participant_id);
    message.append(participant.as_str());
    message.append(":");
    push_decimal(&mut message, exp);
    message
}

/// The signature of a callback.
pub fn egress_signature(
    secret: &str,
    recording_id: u128,
    track_sid: &str,
    participant_id: u128,
    exp: u64,
) -> (signed: String)
    ensures
        signed@ == callback_signature(secret@, recording_id, track_sid@, participant_id, exp),
{
    let message = egress_message(recording_id, track_sid, participant_id, exp);
    sign(secret, message.as_str())
}

/// The address to which the audio of a track is sent.
pub open spec fn callback_address(
    base: Seq<char>,
    secret: Seq<char>,
    recording_id: u128,
    track_sid: Seq<char>,
    participant_id: u128,
    exp: u64,
) -> Seq<char> {
    base + "/internal/egress/"@ + hyphenated_text(recording_id) + "/"@ + track_sid
        + "?participant_id="@ + hyphenated_text(participant_id) + "&exp="@ + decimal_text(
        exp as nat,
    ) + "&sig="@ + callback_signature(secret, recording_id, track_sid, participant_id, exp)
}

/// The address to which the audio of a track is sent; it is good for five minutes.
pub fn signed_callback_url(
    base: &str,
    secret: &str,
    recording_id: u128,
    track_sid: &str,
    participant_id: u128,
    now_seconds: u64,
) -> (url: String)
    requires
        now_seconds <= u64::MAX - CALLBACK_SECONDS,
    ensures
        url@ == callback_address(
            base@,
            secret@,
            recording_id,
            track_sid@,
            participant_id,
            (now_seconds + CALLBACK_SECONDS) as u64,
        ),
{
    let exp: u64 = now_seconds + CALLBACK_SECONDS;
    let sig = egress_signature(secret, recording_id, track_sid, participant_id, exp);
    let recording = uuid_text(recording_id);
    let participant = uuid_text(participant_id);
    let mut url = base.to_owned();
    url.append("/internal/egress/");
    url.append(recording.as_str());
    url.append("/");
    url.append(track_sid);
    url.append("?participant_id=");
    url.append(participant.as_str());
    url.append("&exp=");
    push_decimal(&mut url, exp);
    url.append("&sig=");
    url.append(sig.as_str());
    url
}

/// What a stream shows when it is opened.
#[derive(Debug)]
pub struct EgressQuery {
    pub participant_id: u128,
    pub exp: u64,
    pub sig: String,
}

/// Whether a stream was opened through a callback that the server signed and that has
/// not expired.
pub open spec fn callback_accepted(
    secret: Seq<char>,
    recording_id: u128,
    track_sid: Seq<char>,
    participant_id: u128,
    exp: u64,
    sig: Seq<char>,
    now_seconds: u64,
) -> bool {
    now_seconds <= exp && sig == callback_signature(
        secret,
        recording_id,
        track_sid,
        participant_id,
        exp,
    )
}

/// Whether a stream was opened through a callback that the server signed and that has
/// not expired.
pub fn verify_egress_signature(
    secret: &str,
    recording_id: u128,
    track_sid: &str,
    query: &EgressQuery,
    now_seconds: u64,
) -> (accepted: bool)
    ensures
        accepted == callback_accepted(
            secret@,
            recording_id,
            track_sid@,
            query.participant_id,
            query.exp,
            query.sig@,
            now_seconds,
        ),
{
    let expected = egress_signature(
        secret,
        recording_id,
        track_sid,
        query.participant_id,
        query.exp,
    );
    signed_and_fresh(expected.as_str(), query, now_seconds)
}

/// Whether a query has the expected signature and has not expired.
pub fn signed_and_fresh(expected: &str, query: &EgressQuery, now_seconds: u64) -> (yes: bool)
    ensures
        yes == (now_seconds <= query.exp && query.sig@ == expected@),
{
    now_seconds <= query.exp && same_text(expected, query.sig.as_str())
}

/// A signed callback is accepted until it expires, and not after.
pub proof fn law_callback_is_good_until_it_expires(
    secret: Seq<char>,
    recording_id: u128,
    track_sid: Seq<char>,
    participant_id: u128,
    exp: u64,
    now_seconds: u64,
)
    ensures
        callback_accepted(
            secret,
            recording_id,
            track_sid,
            participant_id,
            exp,
            callback_signature(secret, recording_id, track_sid, participant_id, exp),
            now_seconds,
        ) <==> now_seconds <= exp,
{
}

/// The streams that are open, each for one track of one recording.
#[derive(Debug)]
pub struct ActiveStreams {
    streams: Vec<(u128, String)>,
}

impl View for ActiveStreams {
    type V = Set<(u128, Seq<char>)>;

    closed spec fn view(&self) -> Set<(u128, Seq<char>)> {
        Set::new(|key: (u128, Seq<char>)| stream_keys(self.streams@).contains(key))
    }
}

spec fn stream_keys(streams: Seq<(u128, String)>) -> Seq<(u128, Seq<char>)> {
    streams.map_values(|s: (u128, String)| (s.0, s.1@))
}

impl ActiveStreams {
    /// Each stream is listed once.
    pub closed spec fn wf(&self) -> bool {
        stream_keys(self.streams@).no_duplicates()
    }

    /// No stream is open.
    pub fn new() -> (active: ActiveStreams)
        ensures
            active.wf(),
            active@ == Set::<(u128, Seq<char>)>::empty(),
    {
        let active = ActiveStreams { streams: Vec::new() };
        assert(active@ =~= Set::empty());
        active
    }

    /// Where a stream is listed.
    fn position(&self, recording_id: u128, track_sid: &str) -> (at: Option<usize>)
        ensures
            match at {
                Some(i) => i < self.streams@.len() && stream_keys(self.streams@)[i as int] == (
                    recording_id,
                    track_sid@,
                ) && self@.contains((recording_id, track_sid@)),
                None => !self@.contains((recording_id, track_sid@)),
            },
    {
        let count: usize = self.streams.len();
        let ghost keys = stream_keys(self.streams@);
        let mut i: usize = 0;
        while i < count
            invariant
                count == self.streams@.len(),
                keys == stream_keys(self.streams@),
                i <= count,
                forall|j: int| 0 <= j < i ==> #[trigger] keys[j] != (recording_id, track_sid@),
            decreases count - i,
        {
            if self.streams[i].0 == recording_id && same_text(self.streams[i].1.as_str(), track_sid) {
                assert(keys[i as int] == (recording_id, track_sid@));
                return Some(i);
            }
            i += 1;
        }
        None
    }

    /// Opens a stream; says whether it was not open yet.
    pub fn insert(&mut self, recording_id: u128, track_sid: &str) -> (opened: bool)
        requires
            old(self).wf(),
        ensures
            final(self).wf(),
            opened == !old(self)@.contains((recording_id, track_sid@)),
            final(self)@ == old(self)@.insert((recording_id, track_sid@)),
    {
        if self.position(recording_id, track_sid).is_some() {
            assert(self@ =~= old(self)@.insert((recording_id, track_sid@)));
            return false;
        }
        let ghost before = stream_keys(self.streams@);
        self.streams.push((recording_id, track_sid.to_owned()));
        proof {
            let key = (recording_id, track_sid@);
            let after = stream_keys(self.streams@);
            assert(after =~= before.push(key));
            assert forall|k: (u128, Seq<char>)| after.contains(k) == (before.contains(k) || k == key) by {
                if before.contains(k) {
                    let i = choose|i: int| 0 <= i < before.len() && before[i] == k;
                    assert(after[i] == k);
                }
                if k == key {
                    assert(after[before.len() as int] == k);
                }
                if after.contains(k) && k != key {
                    let i = choose|i: int| 0 <= i < after.len() && after[i] == k;
                    assert(before[i] == k);
                }
            }
            assert(self@ =~= old(self)@.insert(key));
        }
        true
    }

    /// Closes a stream.
    pub fn remove(&mut self, recording_id: u128, track_sid: &str)
        requires
            old(self).wf(),
        ensures
            final(self).wf(),
            final(self)@ == old(self)@.remove((recording_id, track_sid@)),
    {
        match self.position(recording_id, track_sid) {
            Some(at) => {
                let ghost before = stream_keys(self.streams@);
                let _ = self.streams.remove(at);
                proof {
                    let key = (recording_id, track_sid@);
                    let after = stream_keys(self.streams@);
                    assert(after =~= before.remove(at as int));
                    assert(before.no_duplicates());
                    assert forall|k: (u128, Seq<char>)| after.contains(k) == (before.contains(k) && k != key) by {
                        if before.contains(k) && k != key {
                            let i = choose|i: int| 0 <= i < before.len() && before[i] == k;
                            if i < at {
                                assert(after[i] == k);
                            } else {
                                assert(after[i - 1] == k);
                            }
                        }
                        if after.contains(k) {
                            let i = choose|i: int| 0 <= i < after.len() && after[i] == k;
                            if i < at {
                                assert(before[i] == k);
                            } else {
                                assert(before[i + 1] == k);
                            }
                        }
                    }
                    assert(after.no_duplicates()) by {
                        assert forall|i: int, j: int| 0 <= i < after.len() && 0 <= j < after.len() && i != j implies after[i]
                            != after[j] by {
                            let x = if i < at { i } else { i + 1 };
                            let y = if j < at { j } else { j + 1 };
                            assert(after[i] == before[x] && after[j] == before[y]);
                        }
                    }
                    assert(self@ =~= old(self)@.remove(key));
                }
            },
            None => {
                assert(self@ =~= old(self)@.remove((recording_id, track_sid@)));
            },
        }
    }

    /// Whether some stream of a recording is open.
    pub fn any_of(&self, recording_id: u128) -> (yes: bool)
        ensures
            yes == exists|track_sid: Seq<char>| self@.contains((recording_id, track_sid)),
    {
        let count: usize = self.streams.len();
        let ghost keys = stream_keys(self.streams@);
        let mut i: usize = 0;
        while i < count
            invariant
                count == self.streams@.len(),
                keys == stream_keys(self.streams@),
                i <= count,
                forall|j: int| 0 <= j < i ==> (#[trigger] keys[j]).0 != recording_id,
            decreases count - i,
        {
            if self.streams[i].0 == recording_id {
                proof {
                    assert(keys[i as int] == (recording_id, self.streams@[i as int].1@));
                    assert(self@.contains((recording_id, self.streams@[i as int].1@)));
                }
                return true;
            }
            i += 1;
        }
        proof {
            assert forall|track_sid: Seq<char>| !self@.contains((recording_id, track_sid)) by {
                if self@.contains((recording_id, track_sid)) {
                    let j = choose|j: int| 0 <= j < keys.len() && keys[j] == (recording_id, track_sid);
                    assert(keys[j].0 == recording_id);
                }
            }
        }
        false
    }
}

/// A callback is good for five minutes from the moment at which it was made.
pub proof fn law_callback_lasts_five_minutes(
    secret: Seq<char>,
    recording_id: u128,
    track_sid: Seq<char>,
    participant_id: u128,
    now_seconds: u64,
    later: u64,
)
    requires
        now_seconds + 300 <= u64::MAX,
    ensures
        ({
            let exp = (now_seconds + CALLBACK_SECONDS) as u64;
            let sig = callback_signature(secret, recording_id, track_sid, participant_id, exp);
            callback_accepted(
                secret,
                recording_id,
                track_sid,
                participant_id,
                exp,
                sig,
                later,
            ) <==> later <= now_seconds + 300
        }),
{
}

/// What a callback's signature covers tells all its parts: two callbacks with the same message
/// are for the same recording, track and participant and expire at the same moment.
pub proof fn law_signature_covers_every_part(
    recording_id: u128,
    track_sid: Seq<char>,
    participant_id: u128,
    exp: u64,
    other_recording: u128,
    other_track: Seq<char>,
    other_participant: u128,
    other_exp: u64,
)
    requires
        callback_message(recording_id, track_sid, participant_id, exp) == callback_message(
            other_recording,
            other_track,
            other_participant,
            other_exp,
        ),
    ensures
        hyphenated_text(recording_id) == hyphenated_text(other_recording),
        track_sid == other_track,
        hyphenated_text(participant_id) == hyphenated_text(other_participant),
        exp == other_exp,
{
    reveal_strlit(":");
    let message = callback_message(recording_id, track_sid, participant_id, exp);
    let n = message.len() as int;
    let a = decimal_text(exp as nat);
    let b = decimal_text(other_exp as nat);
    crate::ids::lemma_hyphenated_chars(recording_id);
    crate::ids::lemma_hyphenated_chars(other_recording);
    crate::ids::lemma_hyphenated_chars(participant_id);
    crate::ids::lemma_hyphenated_chars(other_participant);
    crate::text::law_decimal_text_stands_for_the_number(exp as nat);
    crate::text::law_decimal_text_stands_for_the_number(other_exp as nat);
    assert(n == 36 + 1 + track_sid.len() + 1 + 36 + 1 + a.len());
    assert(n == 36 + 1 + other_track.len() + 1 + 36 + 1 + b.len());
    assert(message[n - 1 - a.len()] == ':');
    assert(message[n - 1 - b.len()] == ':');
    if a.len() < b.len() {
        assert(message[n - 1 - a.len()] == b[b.len() - 1 - a.len()]);
    }
    if b.len() < a.len() {
        assert(message[n - 1 - b.len()] == a[a.len() - 1 - b.len()]);
    }
    let t = track_sid.len() as int;
    assert(hyphenated_text(recording_id) =~= message.take(36));
    assert(hyphenated_text(other_recording) =~= message.take(36));
    assert(track_sid =~= message.subrange(37, 37 + t));
    assert(other_track =~= message.subrange(37, 37 + t));
    assert(hyphenated_text(participant_id) =~= message.subrange(38 + t, 74 + t));
    assert(hyphenated_text(other_participant) =~= message.subrange(38 + t, 74 + t));
    assert(a =~= message.skip(75 + t));
    assert(b =~= message.skip(75 + t));
}

/// A stream is let in exactly where its signature is that of its own parts and it has not
/// expired: one that was signed for another recording, track, participant or moment is let in
/// only where the signatures are the same.
pub proof fn law_stream_needs_its_own_signature(
    secret: Seq<char>,
    recording_id: u128,
    track_sid: Seq<char>,
    participant_id: u128,
    exp: u64,
    sig: Seq<char>,
    now_seconds: u64,
)
    ensures
        callback_accepted(secret, recording_id, track_sid, participant_id, exp, sig, now_seconds)
            <==> now_seconds <= exp && sig == signature(
            secret,
            hyphenated_text(recording_id) + ":"@ + track_sid + ":"@ + hyphenated_text(
                participant_id,
            ) + ":"@ + decimal_text(exp as nat),
        ),
{
}

/// A callback's address leads to the recording and the track below the given base, and carries
/// the participant, the expiry and the signature.
pub proof fn law_callback_address(
    base: Seq<char>,
    secret: Seq<char>,
    recording_id: u128,
    track_sid: Seq<char>,
    participant_id: u128,
    exp: u64,
)
    ensures
        ({
            let address = callback_address(
                base,
                secret,
                recording_id,
                track_sid,
                participant_id,
                exp,
            );
            let path = base + "/internal/egress/"@ + hyphenated_text(recording_id) + "/"@
                + track_sid;
            let query = "?participant_id="@ + hyphenated_text(participant_id) + "&exp="@
                + decimal_text(exp as nat) + "&sig="@ + callback_signature(
                secret,
                recording_id,
                track_sid,
                participant_id,
                exp,
            );
            address == path + query
        }),
{
    let address = callback_address(base, secret, recording_id, track_sid, participant_id, exp);
    let path = base + "/internal/egress/"@ + hyphenated_text(recording_id) + "/"@ + track_sid;
    let query = "?participant_id="@ + hyphenated_text(participant_id) + "&exp="@ + decimal_text(
        exp as nat,
    ) + "&sig="@ + callback_signature(secret, recording_id, track_sid, participant_id, exp);
    assert(address =~= path + query);
}

/// A method of the media server is reached below its address, behind one slash whether or not
/// the address ends in some.
pub proof fn law_where_methods_are_reached(base: Seq<char>, slashes: Seq<char>, method: Seq<char>)
    requires
        base.len() == 0 || base.last() != '/',
        forall|i: int| 0 <= i < slashes.len() ==> #[trigger] slashes[i] == '/',
    ensures
        twirp_address(base + slashes, method) == base + "/twirp/livekit."@ + method,
{
    let text = base + slashes;
    crate::text::law_slashes_at_the_end_go(text);
    let kept = without_slashes(text);
    if kept.len() > base.len() {
        assert(kept.last() == text[kept.len() - 1]);
        assert(text[kept.len() - 1] == slashes[kept.len() - 1 - base.len()]);
    }
    if kept.len() < base.len() {
        assert(text[base.len() - 1] == base.last());
    }
    assert(kept =~= base);
}

} // verus!
