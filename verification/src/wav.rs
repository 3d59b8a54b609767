//! Assembling the final track of a participant: PCM segments are laid on the
//! common timeline, silence fills the rest, and the result is a WAV file.

use vstd::prelude::*;

use crate::pcm::{decode_s16le, encode_s16le, sample_from_le};
use crate::SAMPLE_RATE;

verus! {

/// The longest track whose WAV header can hold its size.
pub const MAX_WAV_SAMPLES: u64 = 2_147_483_629;

/// `count` samples of digital silence; none where `count` is negative.
pub open spec fn silence(count: int) -> Seq<i16> {
    Seq::new(greater(count, 0) as nat, |i: int| 0i16)
}

/// The smaller of two numbers.
pub open spec fn lesser(a: int, b: int) -> int {
    if a <= b {
        a
    } else {
        b
    }
}

/// The larger of two numbers.
pub open spec fn greater(a: int, b: int) -> int {
    if a >= b {
        a
    } else {
        b
    }
}

/// A track that has reached the start of a segment: silence fills the gap.
pub open spec fn padded_to(track: Seq<i16>, start: int, total: int) -> Seq<i16> {
    track + silence(lesser(start, total) - track.len())
}

/// A track after a segment was laid over it at its place on the timeline: what
/// is already there stays, so the overlapping head of the segment is dropped.
pub open spec fn overlaid(track: Seq<i16>, start: int, audio: Seq<i16>, total: int) -> Seq<i16> {
    let s = lesser(start, total);
    let padded = padded_to(track, start, total);
    let end = greater(padded.len() as int, lesser(total, s + audio.len()));
    Seq::new(end as nat, |t: int| if t < padded.len() { padded[t] } else { audio[t - s] })
}

/// The track after all segments have been laid on the timeline, one after the other.
pub open spec fn timeline_of(segments: Seq<(u64, Seq<i16>)>, total: int) -> Seq<i16>
    decreases segments.len(),
{
    if segments.len() == 0 {
        Seq::empty()
    } else {
        overlaid(
            timeline_of(segments.drop_last(), total),
            segments.last().0 as int,
            segments.last().1,
            total,
        )
    }
}

/// A track with silence up to its full length.
pub open spec fn completed(track: Seq<i16>, total: int) -> Seq<i16> {
    track + silence(total - track.len())
}

/// Little-endian bytes of a number.
pub open spec fn le_bytes(value: int, count: nat) -> Seq<u8>
    decreases count,
{
    if count == 0 {
        Seq::empty()
    } else {
        seq![(value % 256) as u8] + le_bytes(value / 256, (count - 1) as nat)
    }
}

/// A RIFF/WAVE file of mono 16-bit linear PCM.
pub open spec fn wav_file(sample_rate: u32, samples: Seq<i16>) -> Seq<u8> {
    let data_len = 2 * samples.len() as int;
    seq![0x52u8, 0x49, 0x46, 0x46] + le_bytes(data_len + 36, 4) + seq![
        0x57u8,
        0x41,
        0x56,
        0x45,
        0x66,
        0x6d,
        0x74,
        0x20,
    ] + le_bytes(16, 4) + le_bytes(1, 2) + le_bytes(1, 2) + le_bytes(sample_rate as int, 4)
        + le_bytes(2 * sample_rate, 4) + le_bytes(2, 2) + le_bytes(16, 2) + seq![
        0x64u8,
        0x61,
        0x74,
        0x61,
    ] + le_bytes(data_len, 4) + encode_s16le(samples)
}

/// The segments of an in-memory recording, decoded.
pub open spec fn decoded(segments: Seq<(u64, Vec<u8>)>) -> Seq<(u64, Seq<i16>)> {
    segments.map_values(|s: (u64, Vec<u8>)| (s.0, decode_s16le(s.1@)))
}

/// Encodes mono samples with `hound::WavWriter` (`new`, `write_sample`,
/// `finalize`) into memory. Claimed: the bytes are the 44-byte header of mono
/// 16-bit PCM at the given rate, followed by the samples in little-endian order,
/// and the writer does not fail on memory. The sizes must fit the header's
/// 32-bit fields, which the writer adds up unchecked.
#[verifier::external_body]
fn hound_mono_wav(sample_rate: u32, samples: &Vec<i16>) -> (file: Result<Vec<u8>, hound::Error>)
    requires
        samples@.len() <= MAX_WAV_SAMPLES,
        0 < sample_rate <= 0x7fff_ffff,
    ensures
        file is Ok,
        file->Ok_0@ == wav_file(sample_rate, samples@),
{
    let spec = hound::WavSpec {
        channels: 1,
        sample_rate,
        bits_per_sample: 16,
        sample_format: hound::SampleFormat::Int,
    };
    let mut bytes = std::io::Cursor::new(Vec::new());
    let mut writer = hound::WavWriter::new(&mut bytes, spec)?;
    for sample in samples {
        writer.write_sample(*sample)?;
    }
    writer.finalize()?;
    Ok(bytes.into_inner())
}

#[verifier::external_type_specification]
#[verifier::external_body]
pub struct ExHoundError(hound::Error);

/// A track could not be encoded.
#[derive(Clone, Copy, Debug, PartialEq, Eq, Structural)]
pub struct WavError;

/// Appends silence up to `until` samples.
fn push_silence(track: &mut Vec<i16>, until: u64)
    requires
        until <= MAX_WAV_SAMPLES,
        old(track)@.len() <= MAX_WAV_SAMPLES,
    ensures
        final(track)@ == old(track)@ + silence(until - old(track)@.len()),
{
    let ghost before = track@;
    while (track.len() as u64) < until
        invariant
            until <= MAX_WAV_SAMPLES,
            before.len() <= track@.len(),
            track@.len() <= greater(until as int, before.len() as int),
            track@ == before + silence(track@.len() - before.len()),
        decreases until - track@.len(),
    {
        track.push(0);
        assert(track@ =~= before + silence(track@.len() - before.len()));
    }
    assert(track@ =~= before + silence(until - before.len()));
}

/// The format of every track file.
#[derive(Clone, Copy, Debug, PartialEq, Eq, Structural)]
pub struct TrackFormat {
    pub channels: u16,
    pub sample_rate: u32,
    pub bits_per_sample: u16,
}

/// The format of every track file: mono, 48 kHz, 16 bits.
pub fn track_format() -> (format: TrackFormat)
    ensures
        format == (TrackFormat { channels: 1, sample_rate: SAMPLE_RATE, bits_per_sample: 16 }),
{
    TrackFormat { channels: 1, sample_rate: SAMPLE_RATE, bits_per_sample: 16 }
}

/// The WAV file of a track whose segments lie at their own start on the timeline, with
/// silence in between, up to `total_samples`.
pub fn finalize_wav(segments: &Vec<(u64, Vec<u8>)>, total_samples: u64) -> (file: Result<
    Vec<u8>,
    WavError,
>)
    requires
        total_samples <= MAX_WAV_SAMPLES,
    ensures
        file matches Ok(bytes) && bytes@ == wav_file(
            SAMPLE_RATE,
            completed(timeline_of(decoded(segments@), total_samples as int), total_samples as int),
        ),
{
    let ghost all = decoded(segments@);
    let ghost total = total_samples as int;
    let mut stream = TrackStream::new(total_samples);
    let mut track: Vec<i16> = Vec::new();
    let mut n: usize = 0;
    proof {
        assert(all.take(0) =~= Seq::empty());
    }
    while n < segments.len()
        invariant
            n <= segments@.len(),
            all == decoded(segments@),
            total == total_samples,
            total_samples <= MAX_WAV_SAMPLES,
            stream.wf(),
            stream.total() == total,
            stream.written().len() <= total,
            track@ == stream.written(),
            track@ == timeline_of(all.take(n as int), total),
        decreases segments@.len() - n,
    {
        let ghost before = track@;
        let start: u64 = segments[n].0;
        let silent: u64 = stream.begin_segment(start);
        let until: u64 = track.len() as u64 + silent;
        push_silence(&mut track, until);
        assert(track@ =~= stream.written());
        let mut samples = stream.feed(segments[n].1.as_slice());
        track.append(&mut samples);
        proof {
            let audio = decode_s16le(segments@[n as int].1@);
            assert(Seq::<i16>::empty() + audio =~= audio);
            assert(track@ == overlaid(before, start as int, audio, total));
            assert(all.take(n + 1).drop_last() =~= all.take(n as int));
            assert(all.take(n + 1).last() == (start, audio));
        }
        n += 1;
    }
    proof {
        assert(all.take(n as int) =~= all);
    }
    push_silence(&mut track, total_samples);
    match hound_mono_wav(SAMPLE_RATE, &track) {
        Ok(bytes) => Ok(bytes),
        Err(_) => Err(WavError),
    }
}

/// Lays segments on the timeline while their files are read piece by piece, so
/// that no recording has to be held in memory. Each method says what has to be
/// written to the track next.
pub struct TrackStream {
    total: u64,
    cursor: u64,
    skipped: u64,
    written: Ghost<Seq<i16>>,
    before: Ghost<Seq<i16>>,
    start: Ghost<int>,
    audio: Ghost<Seq<i16>>,
}

impl TrackStream {
    /// The length of the finished track.
    pub closed spec fn total(self) -> int {
        self.total as int
    }

    /// Everything that was to be written so far.
    pub closed spec fn written(self) -> Seq<i16> {
        self.written@
    }

    /// What was written before the current segment began.
    pub closed spec fn before(self) -> Seq<i16> {
        self.before@
    }

    /// Where the current segment starts.
    pub closed spec fn start(self) -> int {
        self.start@
    }

    /// The samples of the current segment that have been read.
    pub closed spec fn audio(self) -> Seq<i16> {
        self.audio@
    }

    /// The cursor counts what was written; the current segment lies at its place.
    pub closed spec fn wf(self) -> bool {
        let s = lesser(self.start@, self.total as int);
        let padded = padded_to(self.before@, self.start@, self.total as int);
        &&& self.start@ >= 0
        &&& self.before@.len() <= self.total
        &&& self.cursor == self.written@.len()
        &&& self.cursor <= self.total
        &&& self.written@ == overlaid(self.before@, self.start@, self.audio@, self.total as int)
        &&& self.skipped == greater(padded.len() - s - self.audio@.len(), 0)
    }

    /// A track of `total_samples` samples, with nothing written yet.
    pub fn new(total_samples: u64) -> (stream: TrackStream)
        ensures
            stream.wf(),
            stream.total() == total_samples,
            stream.written() == Seq::<i16>::empty(),
            stream.before() == Seq::<i16>::empty(),
            stream.start() == 0,
            stream.audio() == Seq::<i16>::empty(),
    {
        let stream = TrackStream {
            total: total_samples,
            cursor: 0,
            skipped: 0,
            written: Ghost(Seq::empty()),
            before: Ghost(Seq::empty()),
            start: Ghost(0),
            audio: Ghost(Seq::empty()),
        };
        assert(overlaid(Seq::empty(), 0, Seq::empty(), total_samples as int) =~= Seq::empty());
        stream
    }

    /// Begins a segment: so many samples of silence have to be written first.
    pub fn begin_segment(&mut self, start: u64) -> (silent: u64)
        requires
            old(self).wf(),
        ensures
            final(self).wf(),
            final(self).total() == old(self).total(),
            final(self).before() == old(self).written(),
            final(self).start() == start,
            final(self).audio() == Seq::<i16>::empty(),
            final(self).written() == padded_to(old(self).written(), start as int, old(self).total()),
            silent == final(self).written().len() - old(self).written().len(),
            final(self).written().len() <= final(self).total(),
    {
        let ghost track = self.written@;
        let target = if start < self.total {
            start
        } else {
            self.total
        };
        let mut silent: u64 = 0;
        if self.cursor < target {
            silent = target - self.cursor;
            self.cursor = target;
        }
        self.skipped = self.cursor - target;
        self.before = Ghost(track);
        self.start = Ghost(start as int);
        self.audio = Ghost(Seq::empty());
        self.written = Ghost(padded_to(track, start as int, self.total as int));
        assert(self.written@ =~= overlaid(track, start as int, Seq::empty(), self.total as int));
        silent
    }

    /// Takes the next piece of the current segment's file: these samples have
    /// to be written. An odd last byte of the piece is dropped.
    pub fn feed(&mut self, piece: &[u8]) -> (samples: Vec<i16>)
        requires
            old(self).wf(),
        ensures
            final(self).wf(),
            final(self).total() == old(self).total(),
            final(self).before() == old(self).before(),
            final(self).start() == old(self).start(),
            final(self).audio() == old(self).audio() + decode_s16le(piece@),
            final(self).written() == old(self).written() + samples@,
            final(self).written() == overlaid(
                final(self).before(),
                final(self).start(),
                final(self).audio(),
                final(self).total(),
            ),
            final(self).written().len() <= final(self).total(),
    {
        let ghost news = decode_s16le(piece@);
        let ghost old_audio = self.audio@;
        let ghost old_written = self.written@;
        let ghost total = self.total as int;
        let ghost before = self.before@;
        let ghost start = self.start@;
        let len: usize = piece.len();
        let count: usize = len / 2;
        let mut samples: Vec<i16> = Vec::new();
        let mut i: usize = 0;
        proof {
            assert(old_audio + news.take(0) =~= old_audio);
            assert(old_written + samples@ =~= old_written);
        }
        while i < count
            invariant
                len == piece@.len(),
                count == len / 2,
                i <= count,
                news == decode_s16le(piece@),
                self.wf(),
                self.total == total,
                self.before@ == before,
                self.start@ == start,
                self.audio@ == old_audio + news.take(i as int),
                self.written@ == old_written + samples@,
            decreases count - i,
        {
            let sample = sample_from_le(piece[2 * i], piece[2 * i + 1]);
            let ghost shorter = self.audio@;
            proof {
                assert(old_audio + news.take(i + 1) =~= shorter.push(sample));
            }
            self.audio = Ghost(self.audio@.push(sample));
            let ghost longer = self.audio@;
            if self.skipped > 0 {
                self.skipped = self.skipped - 1;
                assert(overlaid(before, start, longer, total) =~= overlaid(
                    before,
                    start,
                    shorter,
                    total,
                ));
            } else if self.cursor < self.total {
                samples.push(sample);
                self.cursor = self.cursor + 1;
                proof {
                    let next = overlaid(before, start, longer, total);
                    assert(next =~= self.written@.push(sample));
                }
                self.written = Ghost(self.written@.push(sample));
                assert(self.written@ =~= old_written + samples@);
            } else {
                assert(overlaid(before, start, longer, total) =~= overlaid(
                    before,
                    start,
                    shorter,
                    total,
                ));
            }
            i += 1;
        }
        assert(news.take(count as int) =~= news);
        samples
    }

    /// Whether the track has its full length, so that the rest of a file need
    /// not be read.
    pub fn is_full(&self) -> (full: bool)
        requires
            self.wf(),
        ensures
            full == (self.written().len() >= self.total()),
    {
        self.cursor >= self.total
    }

    /// Ends the track: so many samples of silence have to be written last. The track then
    /// has its full length, whatever its segments were.
    pub fn finish(&mut self) -> (silent: u64)
        requires
            old(self).wf(),
        ensures
            final(self).wf(),
            final(self).total() == old(self).total(),
            final(self).written() == completed(old(self).written(), old(self).total()),
            final(self).written().len() == final(self).total(),
            silent == final(self).written().len() - old(self).written().len(),
    {
        let ghost track = self.written@;
        let silent: u64 = self.total - self.cursor;
        self.cursor = self.total;
        self.skipped = 0;
        self.before = Ghost(completed(track, self.total as int));
        self.start = Ghost(self.total as int);
        self.audio = Ghost(Seq::empty());
        self.written = Ghost(completed(track, self.total as int));
        assert(self.written@ =~= overlaid(
            self.before@,
            self.start@,
            Seq::empty(),
            self.total as int,
        ));
        silent
    }
}

/// Whether a segment has a sample at position `t` of the timeline.
pub open spec fn covers(segment: (u64, Seq<i16>), t: int) -> bool {
    segment.0 <= t < segment.0 + segment.1.len()
}

/// Whether any segment has a sample at position `t`.
pub open spec fn covered(segments: Seq<(u64, Seq<i16>)>, t: int) -> bool {
    exists|i: int| 0 <= i < segments.len() && covers(#[trigger] segments[i], t)
}

/// The sample at position `t`: that of the first segment that covers it, and
/// silence where none does.
pub open spec fn heard_at(segments: Seq<(u64, Seq<i16>)>, t: int) -> i16
    decreases segments.len(),
{
    if segments.len() == 0 {
        0
    } else if covered(segments.drop_last(), t) {
        heard_at(segments.drop_last(), t)
    } else if covers(segments.last(), t) {
        segments.last().1[t - segments.last().0]
    } else {
        0
    }
}

/// Segments in the order of their starts.
pub open spec fn by_start(segments: Seq<(u64, Seq<i16>)>) -> bool {
    forall|i: int, j: int| 0 <= i <= j < segments.len() ==> segments[i].0 <= segments[j].0
}

proof fn lemma_timeline_len(segments: Seq<(u64, Seq<i16>)>, total: int)
    requires
        total >= 0,
    ensures
        timeline_of(segments, total).len() <= total,
    decreases segments.len(),
{
    if segments.len() > 0 {
        lemma_timeline_len(segments.drop_last(), total);
    }
}

/// Every finished track has exactly the length of the common timeline, whatever
/// its segments are: all tracks of a recording are equally long.
pub proof fn law_tracks_are_equally_long(segments: Seq<(u64, Seq<i16>)>, total: int)
    requires
        total >= 0,
    ensures
        completed(timeline_of(segments, total), total).len() == total,
{
    lemma_timeline_len(segments, total);
}

proof fn lemma_heard(segments: Seq<(u64, Seq<i16>)>, total: int)
    requires
        total >= 0,
        by_start(segments),
    ensures
        timeline_of(segments, total).len() <= total,
        forall|t: int|
            0 <= t < timeline_of(segments, total).len() ==> timeline_of(segments, total)[t]
                == heard_at(segments, t),
        forall|t: int|
            timeline_of(segments, total).len() <= t < total ==> !covered(segments, t),
    decreases segments.len(),
{
    if segments.len() > 0 {
        let head = segments.drop_last();
        let last = segments.last();
        lemma_heard(head, total);
        let track = timeline_of(head, total);
        let whole = timeline_of(segments, total);
        lemma_timeline_len(segments, total);
        assert(whole == overlaid(track, last.0 as int, last.1, total));
        assert forall|t: int| 0 <= t < whole.len() implies whole[t] == heard_at(segments, t) by {
            let padded = padded_to(track, last.0 as int, total);
            if t < track.len() {
                assert(padded[t] == track[t]);
                assert(whole[t] == heard_at(head, t));
                if covered(head, t) {
                } else if covers(last, t) {
                    assert forall|i: int| 0 <= i < head.len() implies (#[trigger] head[i]).0
                        <= last.0 by {
                        assert(head[i] == segments[i]);
                    }
                    lemma_covered_prefix(head, total, t, last.0 as int);
                } else {
                    lemma_uncovered_is_silent(head, t);
                }
            } else {
                assert(!covered(head, t));
                if t < padded.len() {
                    assert(whole[t] == 0);
                    assert(!covers(last, t));
                } else {
                    assert(covers(last, t));
                }
            }
        }
        assert forall|t: int| whole.len() <= t < total implies !covered(segments, t) by {
            assert(!covered(head, t));
            assert(!covers(last, t));
            if covered(segments, t) {
                let i = choose|i: int|
                    0 <= i < segments.len() && covers(#[trigger] segments[i], t);
                if i < head.len() {
                    assert(covers(head[i], t));
                }
            }
        }
    } else {
        assert forall|t: int| 0 <= t < total implies !covered(segments, t) by {}
    }
}

proof fn lemma_uncovered_is_silent(segments: Seq<(u64, Seq<i16>)>, t: int)
    requires
        !covered(segments, t),
    ensures
        heard_at(segments, t) == 0,
    decreases segments.len(),
{
    if segments.len() > 0 {
        assert(!covers(segments[segments.len() - 1], t));
    }
}

/// Before the end of a timeline, a position at or behind every start is covered.
proof fn lemma_covered_prefix(segments: Seq<(u64, Seq<i16>)>, total: int, t: int, from: int)
    requires
        total >= 0,
        by_start(segments),
        forall|i: int| 0 <= i < segments.len() ==> (#[trigger] segments[i]).0 <= from,
        0 <= from <= t < timeline_of(segments, total).len(),
    ensures
        covered(segments, t),
    decreases segments.len(),
{
    if segments.len() > 0 {
        let head = segments.drop_last();
        let last = segments.last();
        lemma_timeline_len(head, total);
        assert(last == segments[segments.len() - 1]);
        if t < timeline_of(head, total).len() {
            lemma_covered_prefix(head, total, t, from);
            let i = choose|i: int| 0 <= i < head.len() && covers(#[trigger] head[i], t);
            assert(covers(segments[i], t));
        } else {
            assert(covers(segments[segments.len() - 1], t));
        }
    }
}

/// On a finished track of segments in the order of their starts, each position
/// holds the sample of the first segment that covers it; a late start, a gap
/// and the tail are silent.
pub proof fn law_segments_lie_at_their_place(
    segments: Seq<(u64, Seq<i16>)>,
    total: int,
    t: int,
)
    requires
        by_start(segments),
        0 <= t < total,
    ensures
        completed(timeline_of(segments, total), total)[t] == heard_at(segments, t),
        !covered(segments, t) ==> completed(timeline_of(segments, total), total)[t] == 0,
{
    lemma_heard(segments, total);
    if !covered(segments, t) {
        lemma_uncovered_is_silent(segments, t);
    }
    if t >= timeline_of(segments, total).len() {
        lemma_uncovered_is_silent(segments, t);
    }
}

/// Reading a segment in pieces of even length gives the samples of the whole.
pub proof fn law_pieces_of_a_file(first: Seq<u8>, second: Seq<u8>)
    requires
        first.len() % 2 == 0,
    ensures
        decode_s16le(first) + decode_s16le(second) == decode_s16le(first + second),
{
    let n = (first.len() / 2) as int;
    let whole = decode_s16le(first + second);
    let parts = decode_s16le(first) + decode_s16le(second);
    assert forall|i: int| 0 <= i < whole.len() implies whole[i] == parts[i] by {
        if i >= n {
            assert((first + second)[2 * i] == second[2 * (i - n)]);
            assert((first + second)[2 * i + 1] == second[2 * (i - n) + 1]);
        }
    }
    assert(whole =~= parts);
}

/// A track of full length does not change any more: the rest of a segment need
/// not be read.
pub proof fn law_full_track_is_final(
    track: Seq<i16>,
    start: int,
    audio: Seq<i16>,
    more: Seq<i16>,
    total: int,
)
    requires
        start >= 0,
        track.len() <= total,
        overlaid(track, start, audio, total).len() >= total,
    ensures
        overlaid(track, start, audio + more, total) == overlaid(track, start, audio, total),
{
    assert(overlaid(track, start, audio + more, total) =~= overlaid(track, start, audio, total));
}

/// The first of the segments, taken by their starts, that reaches a place of the track is heard
/// there, and where none does it is silent. A segment reaches from its start as far as it has
/// samples; the sample that many behind its first one is heard that many behind its start.
pub proof fn law_first_segment_at_a_place_is_heard(
    segments: Seq<(u64, Seq<i16>)>,
    total: int,
    t: int,
    i: int,
)
    requires
        forall|a: int, b: int| 0 <= a <= b < segments.len() ==> segments[a].0 <= segments[b].0,
        0 <= t < total,
        0 <= i <= segments.len(),
        forall|j: int|
            0 <= j < i ==> !((#[trigger] segments[j]).0 <= t < segments[j].0 + segments[j].1.len()),
        i < segments.len() ==> segments[i].0 <= t < segments[i].0 + segments[i].1.len(),
    ensures
        completed(timeline_of(segments, total), total).len() == total,
        completed(timeline_of(segments, total), total)[t] == if i < segments.len() {
            segments[i].1[t - segments[i].0]
        } else {
            0
        },
{
    law_tracks_are_equally_long(segments, total);
    law_segments_lie_at_their_place(segments, total, t);
    lemma_heard_first(segments, t, i);
}

proof fn lemma_heard_first(segments: Seq<(u64, Seq<i16>)>, t: int, i: int)
    requires
        0 <= i <= segments.len(),
        forall|j: int|
            0 <= j < i ==> !((#[trigger] segments[j]).0 <= t < segments[j].0 + segments[j].1.len()),
        i < segments.len() ==> segments[i].0 <= t < segments[i].0 + segments[i].1.len(),
    ensures
        heard_at(segments, t) == if i < segments.len() {
            segments[i].1[t - segments[i].0]
        } else {
            0
        },
    decreases segments.len(),
{
    if segments.len() > 0 {
        let head = segments.drop_last();
        assert forall|j: int| 0 <= j < head.len() implies head[j] == #[trigger] segments[j] by {}
        if i < head.len() {
            assert(covers(head[i], t));
            lemma_heard_first(head, t, i);
        } else {
            assert forall|j: int| 0 <= j < head.len() implies !covers(#[trigger] head[j], t) by {
                assert(head[j] == segments[j]);
            }
            assert(!covered(head, t));
            if i == segments.len() {
                assert(!covers(segments[i - 1], t));
            }
        }
    }
}

/// A segment that is laid on a track changes nothing of what is there. Behind it comes silence
/// up to the start of the segment, then the samples of the segment at their places; none of it
/// goes beyond the end of the track.
pub proof fn law_segment_is_laid_behind_the_track(
    track: Seq<i16>,
    start: int,
    audio: Seq<i16>,
    total: int,
    t: int,
)
    requires
        0 <= start,
        track.len() <= total,
    ensures
        ({
            let after = overlaid(track, start, audio, total);
            &&& track.len() <= after.len() <= total
            &&& 0 <= t < track.len() ==> after[t] == track[t]
            &&& track.len() <= t < start && t < total ==> t < after.len() && after[t] == 0
            &&& track.len() <= t && start <= t < start + audio.len() && t < total ==> t
                < after.len() && after[t] == audio[t - start]
            &&& start + audio.len() <= t && start <= t && track.len() <= t ==> after.len() <= t
        }),
{
}

/// A finished track is what was laid on it, and silence behind that.
pub proof fn law_finished_track_ends_in_silence(track: Seq<i16>, total: int, t: int)
    requires
        track.len() <= total,
        0 <= t < total,
    ensures
        completed(track, total).len() == total,
        completed(track, total)[t] == if t < track.len() {
            track[t]
        } else {
            0
        },
{
}

/// The bytes of a number, the lowest first, add up to it.
proof fn lemma_le_bytes(value: int, count: nat)
    requires
        0 <= value,
    ensures
        le_bytes(value, count).len() == count,
        count == 2 && value < 65_536 ==> value == le_bytes(value, count)[0] + 256 * le_bytes(
            value,
            count,
        )[1],
        count == 4 && value < 4_294_967_296 ==> value == le_bytes(value, count)[0] + 256 * le_bytes(
            value,
            count,
        )[1] + 65_536 * le_bytes(value, count)[2] + 16_777_216 * le_bytes(value, count)[3],
    decreases count,
{
    reveal_with_fuel(le_bytes, 5);
    if count > 0 {
        lemma_le_bytes(value / 256, (count - 1) as nat);
    }
    if count == 4 && value < 4_294_967_296 {
        let a = value / 256;
        let b = a / 256;
        let c = b / 256;
        assert(le_bytes(value, 4)[0] == value % 256);
        assert(le_bytes(value, 4)[1] == le_bytes(a, 3)[0]);
        assert(le_bytes(a, 3)[0] == a % 256);
        assert(le_bytes(value, 4)[2] == le_bytes(a, 3)[1]);
        assert(le_bytes(a, 3)[1] == le_bytes(b, 2)[0]);
        assert(le_bytes(b, 2)[0] == b % 256);
        assert(le_bytes(value, 4)[3] == le_bytes(a, 3)[2]);
        assert(le_bytes(a, 3)[2] == le_bytes(b, 2)[1]);
        assert(le_bytes(b, 2)[1] == le_bytes(c, 1)[0]);
        assert(le_bytes(c, 1)[0] == c % 256);
        assert(value == 256 * a + value % 256);
        assert(a == 256 * b + a % 256);
        assert(b == 256 * c + b % 256);
        assert(c < 256);
    }
    if count == 2 && value < 65_536 {
        let a = value / 256;
        assert(le_bytes(value, 2)[0] == value % 256);
        assert(le_bytes(value, 2)[1] == le_bytes(a, 1)[0]);
        assert(le_bytes(a, 1)[0] == a % 256);
        assert(value == 256 * a + value % 256);
    }
}

/// A track file is a header of 44 bytes and two bytes for each sample, the low one first. The
/// header tells of one channel, the sample rate and 16 bits, and how long the file and the
/// samples are.
pub proof fn law_track_file(sample_rate: u32, samples: Seq<i16>, i: int)
    requires
        samples.len() <= MAX_WAV_SAMPLES,
        0 <= i < samples.len(),
    ensures
        ({
            let file = wav_file(sample_rate, samples);
            &&& file.len() == 44 + 2 * samples.len()
            &&& file[4] + 256 * file[5] + 65_536 * file[6] + 16_777_216 * file[7] == file.len() - 8
            &&& file[22] + 256 * file[23] == 1
            &&& file[24] + 256 * file[25] + 65_536 * file[26] + 16_777_216 * file[27] == sample_rate
            &&& file[34] + 256 * file[35] == 16
            &&& file[40] + 256 * file[41] + 65_536 * file[42] + 16_777_216 * file[43] == 2
                * samples.len()
            &&& (samples[i] - file[44 + 2 * i] - 256 * file[44 + 2 * i + 1]) % 65536 == 0
        }),
{
    let data = 2 * samples.len() as int;
    lemma_le_bytes(data + 36, 4);
    lemma_le_bytes(16, 4);
    lemma_le_bytes(1, 2);
    lemma_le_bytes(sample_rate as int, 4);
    lemma_le_bytes(2 * sample_rate, 4);
    lemma_le_bytes(2, 2);
    lemma_le_bytes(16, 2);
    lemma_le_bytes(data, 4);
    crate::pcm::law_bytes_of_samples(samples, i);
    let file = wav_file(sample_rate, samples);
    assert(file.skip(44) =~= encode_s16le(samples));
    assert(file[44 + 2 * i] == encode_s16le(samples)[2 * i]);
    assert(file[44 + 2 * i + 1] == encode_s16le(samples)[2 * i + 1]);
}

/// A segment in memory lies where it says and holds the samples that its bytes stand for.
pub proof fn law_segments_in_memory(segments: Seq<(u64, Vec<u8>)>, i: int, t: int)
    requires
        0 <= i < segments.len(),
        0 <= t < segments[i].1@.len() / 2,
    ensures
        decoded(segments).len() == segments.len(),
        decoded(segments)[i].0 == segments[i].0,
        decoded(segments)[i].1.len() == segments[i].1@.len() / 2,
        (decoded(segments)[i].1[t] - segments[i].1@[2 * t] - 256 * segments[i].1@[2 * t + 1])
            % 65536 == 0,
{
    crate::pcm::law_samples_of_bytes(segments[i].1@, t);
}

} // verus!
